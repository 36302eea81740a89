//! The players of a match.

use crate::error::ParseError;
use crate::item::{item_limit, Item, ItemView};
use crate::parser::{
    counted_utf16, counted_utf8, le_u32, le_u64, lemma_many_m_n_committed, lemma_many_m_n_len,
    many_m_n, parsed_as,
    rest_of, spec_counted_utf16, spec_counted_utf8, spec_cut, spec_le_u32, spec_le_u64,
    spec_many_m_n, spec_take, take, value_of, Fields, Parsed, Record,
};
use crate::views::{lemma_deep_view_empty, lemma_deep_view_push};
use vstd::prelude::*;

verus! {

broadcast use crate::views::group_plain_deep_views;

/// A player of a match.
#[derive(Debug, PartialEq, Eq)]
pub struct Player {
    pub name: String,
    pub team: u32,
    /// The side the player chose; it decides how many items follow.
    pub faction: String,
    pub ai_type: String,
    pub steam_id: String,
    pub profile_id: u64,
    pub items: Vec<Item>,
}

/// The model of a [`Player`].
pub struct PlayerView {
    pub name: Seq<char>,
    pub team: u32,
    pub faction: Seq<char>,
    pub ai_type: Seq<char>,
    pub steam_id: Seq<char>,
    pub profile_id: u64,
    pub items: Seq<ItemView>,
}

impl PlayerView {
    /// The player carries no more items than its faction allows.
    pub open spec fn wf(self) -> bool {
        self.items.len() <= item_limit(self.faction)
    }
}

impl DeepView for Player {
    type V = PlayerView;

    open spec fn deep_view(&self) -> PlayerView {
        PlayerView {
            name: self.name@,
            team: self.team,
            faction: self.faction@,
            ai_type: self.ai_type@,
            steam_id: self.steam_id@,
            profile_id: self.profile_id,
            items: self.items.deep_view(),
        }
    }
}

impl View for Player {
    type V = PlayerView;

    open spec fn view(&self) -> PlayerView {
        self.deep_view()
    }
}

/// What stands before a player's items, in this order: one byte, the name,
/// the team, five bytes, the faction, eight bytes, the kind of AI, forty
/// bytes, the profile, one byte, the Steam identifier and eighteen bytes.
/// The player it yields has no items yet.
#[verifier::opaque]
pub open spec fn spec_player_prefix(s: Seq<u8>) -> Parsed<PlayerView> {
    let pad1 = spec_take(s, 1);
    let name = spec_counted_utf16(rest_of(pad1));
    let team = spec_le_u32(rest_of(name));
    let pad2 = spec_take(rest_of(team), 5);
    let faction = spec_counted_utf8(rest_of(pad2));
    let pad3 = spec_take(rest_of(faction), 8);
    let ai_type = spec_counted_utf8(rest_of(pad3));
    let pad4 = spec_take(rest_of(ai_type), 40);
    let profile_id = spec_le_u64(rest_of(pad4));
    let pad5 = spec_take(rest_of(profile_id), 1);
    let steam_id = spec_counted_utf16(rest_of(pad5));
    let pad6 = spec_take(rest_of(steam_id), 18);
    let fields = Fields::none().and(pad1).and(name).and(team).and(pad2).and(faction).and(pad3).and(
        ai_type,
    ).and(pad4).and(profile_id).and(pad5).and(steam_id).and(pad6);
    fields.outcome(
        PlayerView {
            name: value_of(name),
            team: value_of(team),
            faction: value_of(faction),
            ai_type: value_of(ai_type),
            steam_id: value_of(steam_id),
            profile_id: value_of(profile_id),
            items: Seq::empty(),
        },
        rest_of(pad6),
    )
}

/// The fields of a player: what stands before the items, then items, no
/// more than the faction just decoded allows, then four bytes.
pub open spec fn spec_player_fields(s: Seq<u8>) -> Parsed<PlayerView> {
    match spec_player_prefix(s) {
        Ok((player, r1)) => match spec_many_m_n::<Item>(r1, 0, item_limit(player.faction)) {
            Ok((items, r2)) => match spec_take(r2, 4) {
                Ok((_, r3)) => Ok((PlayerView { items, ..player }, r3)),
                Err(e) => Err(e),
            },
            Err(e) => Err(e),
        },
        Err(e) => Err(e),
    }
}

/// A player.  It is committed from its first byte.
pub open spec fn spec_parse_player(s: Seq<u8>) -> Parsed<PlayerView> {
    spec_cut(spec_player_fields(s))
}

/// Every failure of an item ends the decoding, so items that decode are as
/// many as the list may hold.
pub proof fn lemma_items_committed(s: Seq<u8>, limit: nat)
    ensures
        spec_many_m_n::<Item>(s, 0, limit) matches Ok((items, _)) ==> items.len() == limit,
{
    lemma_many_m_n_committed::<Item>(s, 0, limit);
}

/// A player that decodes carries exactly as many items as its faction
/// allows: the decoder reads no item beyond the limit, and none is missing.
pub proof fn lemma_player_items(s: Seq<u8>)
    ensures
        spec_parse_player(s) matches Ok((player, _)) ==> player.items.len() == item_limit(
            player.faction,
        ) && player.wf(),
{
    if let Ok((player, r1)) = spec_player_prefix(s) {
        lemma_items_committed(r1, item_limit(player.faction));
    }
}

/// A player of the faction `germans` that decodes carries 25 items: no item
/// beyond the 25th is read, whatever the buffer holds behind it.
pub proof fn lemma_germans_items(s: Seq<u8>)
    ensures
        spec_parse_player(s) matches Ok((player, _)) ==> (player.faction == "germans"@
            ==> player.items.len() == 25),
{
    reveal_strlit("germans");
    reveal_strlit("americans");
    reveal_strlit("british_africa");
    assert("germans"@.len() == 7);
    assert("americans"@.len() == 9);
    assert("british_africa"@.len() == 14);
    lemma_player_items(s);
}

impl Player {
    /// Decodes a player.  The faction is decoded before the items, whose
    /// number it decides.  Every failure ends the decoding.
    pub fn parse_player(input: &[u8]) -> (r: Result<(Player, &[u8]), ParseError>)
        ensures
            parsed_as(r, spec_parse_player(input@)),
            r matches Ok((player, _)) ==> player@.wf(),
    {
        proof {
            lemma_player_items(input@);
        }
        match Self::parse_fields(input) {
            Ok(v) => Ok(v),
            Err(e) => Err(e.commit()),
        }
    }

    fn parse_fields(input: &[u8]) -> (r: Result<(Player, &[u8]), ParseError>)
        ensures
            parsed_as(r, spec_player_fields(input@)),
    {
        let (player, r1) = Self::parse_prefix(input)?;
        let (items, r2) = Self::parse_items(r1, player.faction.as_str())?;
        let (_, r3) = take(r2, 4)?;
        Ok(
            (
                Player {
                    name: player.name,
                    team: player.team,
                    faction: player.faction,
                    ai_type: player.ai_type,
                    steam_id: player.steam_id,
                    profile_id: player.profile_id,
                    items,
                },
                r3,
            ),
        )
    }

    fn parse_prefix(input: &[u8]) -> (r: Result<(Player, &[u8]), ParseError>)
        ensures
            parsed_as(r, spec_player_prefix(input@)),
    {
        reveal(spec_player_prefix);
        let (_, r1) = take(input, 1)?;
        let (name, r2) = Self::parse_name(r1)?;
        let (team, r3) = Self::parse_team(r2)?;
        let (_, r4) = take(r3, 5)?;
        let (faction, r5) = Self::parse_faction(r4)?;
        let (_, r6) = take(r5, 8)?;
        let (ai_type, r7) = Self::parse_ai(r6)?;
        let (_, r8) = take(r7, 40)?;
        let (profile_id, r9) = le_u64(r8)?;
        let (_, r10) = take(r9, 1)?;
        let (steam_id, r11) = Self::parse_steam_id(r10)?;
        let (_, r12) = take(r11, 18)?;
        let items: Vec<Item> = Vec::new();
        proof {
            lemma_deep_view_empty(items);
        }
        Ok((Player { name, team, faction, ai_type, steam_id, profile_id, items }, r12))
    }

    /// Decodes the name.
    pub fn parse_name(input: &[u8]) -> (r: Result<(String, &[u8]), ParseError>)
        ensures
            parsed_as(r, spec_counted_utf16(input@)),
    {
        counted_utf16(input)
    }

    /// Decodes the team.
    pub fn parse_team(input: &[u8]) -> (r: Result<(u32, &[u8]), ParseError>)
        ensures
            parsed_as(r, spec_le_u32(input@)),
    {
        le_u32(input)
    }

    /// Decodes the faction.
    pub fn parse_faction(input: &[u8]) -> (r: Result<(String, &[u8]), ParseError>)
        ensures
            parsed_as(r, spec_counted_utf8(input@)),
    {
        counted_utf8(input)
    }

    /// Decodes the kind of AI.
    pub fn parse_ai(input: &[u8]) -> (r: Result<(String, &[u8]), ParseError>)
        ensures
            parsed_as(r, spec_counted_utf8(input@)),
    {
        counted_utf8(input)
    }

    /// Decodes the Steam identifier.
    pub fn parse_steam_id(input: &[u8]) -> (r: Result<(String, &[u8]), ParseError>)
        ensures
            parsed_as(r, spec_counted_utf16(input@)),
    {
        counted_utf16(input)
    }

    /// Decodes the items of a player of the given faction: no more than the
    /// faction allows.
    pub fn parse_items<'a>(input: &'a [u8], faction: &str) -> (r: Result<
        (Vec<Item>, &'a [u8]),
        ParseError,
    >)
        ensures
            parsed_as(r, spec_many_m_n::<Item>(input@, 0, item_limit(faction@))),
            r matches Ok((items, _)) ==> items@.len() <= item_limit(faction@),
    {
        many_m_n::<Item>(input, 0, Item::get_item_count(faction))
    }
}

impl Clone for Player {
    fn clone(&self) -> (r: Self)
        ensures
            r@ == self@,
    {
        let mut items: Vec<Item> = Vec::new();
        let mut i: usize = 0;
        while i < self.items.len()
            invariant
                i <= self.items.len(),
                items.deep_view() =~= self.items.deep_view().subrange(0, i as int),
            decreases self.items.len() - i,
        {
            let ghost before = items;
            let item = self.items[i].clone();
            items.push(item);
            proof {
                lemma_deep_view_push(before, items, item);
            }
            i += 1;
        }
        assert(items.deep_view() =~= self.items.deep_view());
        Player {
            name: self.name.clone(),
            team: self.team,
            faction: self.faction.clone(),
            ai_type: self.ai_type.clone(),
            steam_id: self.steam_id.clone(),
            profile_id: self.profile_id,
            items,
        }
    }
}

impl Record for Player {
    open spec fn spec_parse(s: Seq<u8>) -> Parsed<PlayerView> {
        spec_parse_player(s)
    }

    proof fn lemma_takes_bytes(s: Seq<u8>) {
        reveal(spec_player_prefix);
        if let Ok((player, r1)) = spec_player_prefix(s) {
            lemma_many_m_n_len::<Item>(r1, 0, item_limit(player.faction));
        }
    }

    fn parse(input: &[u8]) -> (r: Result<(Player, &[u8]), ParseError>) {
        Player::parse_player(input)
    }
}

} // verus!
