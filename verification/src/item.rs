//! The items of a player's loadout.

use crate::error::ParseError;
use crate::parser::{
    le_u32, parsed_as, spec_cut, spec_le_u32, spec_take, spec_take_n, take, take_n, Parsed,
    Record,
};
use vstd::prelude::*;
use vstd::slice::slice_to_vec;
use vstd::string::StringExecFns;

verus! {

broadcast use crate::views::group_plain_deep_views;

/// An item of a loadout: its payload, which is not interpreted.
#[derive(Debug, PartialEq, Eq)]
pub struct Item {
    pub data: Vec<u8>,
}

/// The model of an [`Item`].
pub struct ItemView {
    pub data: Seq<u8>,
}

impl DeepView for Item {
    type V = ItemView;

    open spec fn deep_view(&self) -> ItemView {
        ItemView { data: self.data@ }
    }
}

impl View for Item {
    type V = ItemView;

    open spec fn view(&self) -> ItemView {
        self.deep_view()
    }
}

/// How many items a player of the faction carries.
pub open spec fn item_limit(faction: Seq<char>) -> nat {
    if faction == "british_africa"@ {
        21
    } else if faction == "americans"@ {
        22
    } else if faction == "germans"@ {
        25
    } else {
        28
    }
}

/// The bytes between an item's first four and its fixed part: a 32-bit number
/// is looked at, and twelve bytes are passed over where it is zero, four
/// where it is not.
pub open spec fn spec_parse_sublength(s: Seq<u8>) -> Parsed<Seq<u8>> {
    match spec_le_u32(s) {
        Ok((id, _)) => if id == 0 {
            spec_take(s, 12)
        } else {
            spec_take(s, 4)
        },
        Err(e) => Err(e),
    }
}

/// The fields of an item: four bytes, the bytes that the number looked at
/// decides on, twenty bytes, and the counted payload.
#[verifier::opaque]
pub open spec fn spec_item_fields(s: Seq<u8>) -> Parsed<ItemView> {
    match spec_take(s, 4) {
        Ok((_, r1)) => match spec_parse_sublength(r1) {
            Ok((_, r2)) => match spec_take(r2, 20) {
                Ok((_, r3)) => match spec_take_n(r3) {
                    Ok(((_, data), r4)) => Ok((ItemView { data }, r4)),
                    Err(e) => Err(e),
                },
                Err(e) => Err(e),
            },
            Err(e) => Err(e),
        },
        Err(e) => Err(e),
    }
}

/// An item.  It is committed from its first byte: a buffer that ends within
/// it cannot be decoded any other way.
pub open spec fn spec_parse_item(s: Seq<u8>) -> Parsed<ItemView> {
    spec_cut(spec_item_fields(s))
}

impl Clone for Item {
    fn clone(&self) -> (r: Self)
        ensures
            r@ == self@,
    {
        Item { data: slice_to_vec(self.data.as_slice()) }
    }
}

impl Record for Item {
    open spec fn spec_parse(s: Seq<u8>) -> Parsed<ItemView> {
        spec_parse_item(s)
    }

    proof fn lemma_takes_bytes(s: Seq<u8>) {
        reveal(spec_item_fields);
    }

    fn parse(input: &[u8]) -> (r: Result<(Item, &[u8]), ParseError>) {
        Item::parse_item(input)
    }
}

impl Item {
    /// Decodes an item; every failure ends the decoding.
    pub fn parse_item(input: &[u8]) -> (r: Result<(Item, &[u8]), ParseError>)
        ensures
            parsed_as(r, spec_parse_item(input@)),
    {
        match Self::parse_fields(input) {
            Ok(v) => Ok(v),
            Err(e) => Err(e.commit()),
        }
    }

    fn parse_fields(input: &[u8]) -> (r: Result<(Item, &[u8]), ParseError>)
        ensures
            parsed_as(r, spec_item_fields(input@)),
    {
        reveal(spec_item_fields);
        let (_, r1) = take(input, 4)?;
        let (_, r2) = Self::parse_sublength(r1)?;
        let (_, r3) = take(r2, 20)?;
        let ((_, data), r4) = take_n(r3)?;
        Ok((Item { data: slice_to_vec(data) }, r4))
    }

    /// How many items a player of the faction carries: 21 for
    /// `british_africa`, 22 for `americans`, 25 for `germans`, 28 for any
    /// other.
    pub fn get_item_count(faction: &str) -> (n: usize)
        ensures
            n == item_limit(faction@),
    {
        let faction = faction.to_owned();
        if faction == String::from_str("british_africa") {
            21
        } else if faction == String::from_str("americans") {
            22
        } else if faction == String::from_str("germans") {
            25
        } else {
            28
        }
    }

    /// Looks at a 32-bit number and passes over twelve bytes where it is
    /// zero, four where it is not.
    pub fn parse_sublength(input: &[u8]) -> (r: Result<(&[u8], &[u8]), ParseError>)
        ensures
            parsed_as(r, spec_parse_sublength(input@)),
    {
        let (id, _) = le_u32(input)?;
        if id == 0 {
            take(input, 12)
        } else {
            take(input, 4)
        }
    }
}

} // verus!
