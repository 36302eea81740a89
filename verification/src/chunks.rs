//! The chunk tree: tagged blocks that state their own length, and that are
//! either a container of further chunks or a leaf with data.
//!
//! A chunk is a header of twenty bytes and a body of exactly the length that
//! the header states.  Once the kind at the start of the header is
//! recognised the chunk is committed: every later failure ends the decoding.

use crate::error::ParseError;
use crate::parser::{
    after, count_n, counted_utf16, counted_utf8, enforce_end_of_input, incomplete, le_u32,
    le_u64, lemma_count_all, lemma_seq_after_end, lemma_seq_after_start, lemma_seq_after_step,
    malformed, parse_utf8_fixed, parsed_as, rest_of, seq_after, spec_cons, spec_count,
    spec_count_n, spec_counted_utf16, spec_counted_utf8, spec_cut, spec_enforce_end_of_input,
    spec_le_u32, spec_le_u64, spec_parse_utf8_fixed, spec_tag, spec_take, spec_take_n,
    starts_with, string_from_utf8_lossy, tag, take, take_n, utf8_lossy, value_of, Fields, Parsed,
    Record,
};
use crate::player::{lemma_player_items, Player, PlayerView};
use crate::views::{lemma_deep_view_empty, lemma_deep_view_push};
use vstd::prelude::*;
use vstd::slice::{slice_subrange, slice_to_vec};

verus! {

broadcast use crate::views::group_plain_deep_views;

/// The number of bytes of a chunk header.
pub const CHUNK_HEADER_LEN: usize = 20;

/// The bytes of the kind `DATA`, and of the type `DATA`.
pub open spec fn data_tag() -> Seq<u8> {
    seq![0x44u8, 0x41, 0x54, 0x41]
}

/// The bytes of the kind `FOLD`.
pub open spec fn fold_tag() -> Seq<u8> {
    seq![0x46u8, 0x4f, 0x4c, 0x44]
}

/// The bytes of the type `SDSC`.
pub open spec fn sdsc_tag() -> Seq<u8> {
    seq![0x53u8, 0x44, 0x53, 0x43]
}

/// The header of a chunk.
#[derive(Debug, PartialEq, Eq)]
pub struct ChunkHeader {
    /// The kind, `DATA` or `FOLD`, as text.
    pub chunk_kind: String,
    /// The four-byte type, as text.
    pub chunk_type: String,
    pub version: u32,
    /// The number of bytes of the body, the header not counted.
    pub length: u32,
    pub name_length: u32,
}

/// The model of a [`ChunkHeader`].
pub struct ChunkHeaderView {
    pub chunk_kind: Seq<char>,
    pub chunk_type: Seq<char>,
    pub version: u32,
    pub length: u32,
    pub name_length: u32,
}

impl DeepView for ChunkHeader {
    type V = ChunkHeaderView;

    open spec fn deep_view(&self) -> ChunkHeaderView {
        ChunkHeaderView {
            chunk_kind: self.chunk_kind@,
            chunk_type: self.chunk_type@,
            version: self.version,
            length: self.length,
            name_length: self.name_length,
        }
    }
}

impl View for ChunkHeader {
    type V = ChunkHeaderView;

    open spec fn view(&self) -> ChunkHeaderView {
        self.deep_view()
    }
}

/// A chunk.
#[derive(Debug, PartialEq, Eq)]
pub enum Chunk {
    /// A container of chunks.
    FOLD(FOLDChunk),
    /// Data that is kept as it is.
    DATA(TrashDATAChunk),
    /// The setup of the game.
    DATADATA(DATADATAChunk),
    /// The description of the map.
    DATASDSC(DATASDSCChunk),
}

/// A container: the chunks that fill its body.
#[derive(Debug, PartialEq, Eq)]
pub struct FOLDChunk {
    pub header: ChunkHeader,
    pub chunks: Vec<Chunk>,
}

/// Data of a type, or of a version, that is not interpreted.
#[derive(Debug, PartialEq, Eq)]
pub struct TrashDATAChunk {
    pub header: ChunkHeader,
    pub data: Vec<u8>,
}

/// The setup of the game.
#[derive(Debug, PartialEq, Eq)]
pub struct DATADATAChunk {
    pub header: ChunkHeader,
    pub opponent_type: u32,
    pub players: Vec<Player>,
    /// The identifier under which the match is on record.
    pub matchhistory_id: u64,
    pub section_resources: String,
    pub option_resources: String,
    pub section_tickets: String,
    pub option_tickets: String,
    pub unknown_string: String,
}

/// The description of the map.
#[derive(Debug, PartialEq, Eq)]
pub struct DATASDSCChunk {
    pub header: ChunkHeader,
    pub map_file: String,
    pub map_name: String,
    pub map_description: String,
}

/// The model of a [`Chunk`].
pub enum ChunkView {
    FOLD(FOLDChunkView),
    DATA(TrashDATAChunkView),
    DATADATA(DATADATAChunkView),
    DATASDSC(DATASDSCChunkView),
}

/// The model of a [`FOLDChunk`].
pub struct FOLDChunkView {
    pub header: ChunkHeaderView,
    pub chunks: Seq<ChunkView>,
}

/// The model of a [`TrashDATAChunk`].
pub struct TrashDATAChunkView {
    pub header: ChunkHeaderView,
    pub data: Seq<u8>,
}

/// The model of a [`DATADATAChunk`].
pub struct DATADATAChunkView {
    pub header: ChunkHeaderView,
    pub opponent_type: u32,
    pub players: Seq<PlayerView>,
    pub matchhistory_id: u64,
    pub section_resources: Seq<char>,
    pub option_resources: Seq<char>,
    pub section_tickets: Seq<char>,
    pub option_tickets: Seq<char>,
    pub unknown_string: Seq<char>,
}

/// The model of a [`DATASDSCChunk`].
pub struct DATASDSCChunkView {
    pub header: ChunkHeaderView,
    pub map_file: Seq<char>,
    pub map_name: Seq<char>,
    pub map_description: Seq<char>,
}

impl ChunkView {
    /// The header of the chunk.
    pub open spec fn header(self) -> ChunkHeaderView {
        match self {
            ChunkView::FOLD(c) => c.header,
            ChunkView::DATA(c) => c.header,
            ChunkView::DATADATA(c) => c.header,
            ChunkView::DATASDSC(c) => c.header,
        }
    }

    /// The number of bytes that the chunk takes in a buffer: its header and
    /// the body of the length that the header states.
    pub open spec fn encoded_len(self) -> nat {
        (CHUNK_HEADER_LEN + self.header().length) as nat
    }

    /// The chunk is exactly as long as its header states: the chunks of a
    /// container add up to the container's length, each of them being as
    /// long as it states in turn, and data that is kept has that length.
    /// No player carries more items than its faction allows.
    pub open spec fn wf(self) -> bool
        decreases self,
    {
        match self {
            ChunkView::FOLD(c) => {
                &&& total_len(c.chunks) == c.header.length
                &&& forall|i: int| 0 <= i < c.chunks.len() ==> (#[trigger] c.chunks[i]).wf()
            },
            ChunkView::DATA(c) => c.data.len() == c.header.length,
            ChunkView::DATADATA(c) => forall|i: int|
                0 <= i < c.players.len() ==> (#[trigger] c.players[i]).wf(),
            ChunkView::DATASDSC(_) => true,
        }
    }
}

/// The number of bytes that the chunks take in a buffer, one after the other.
pub open spec fn total_len(chunks: Seq<ChunkView>) -> nat
    decreases chunks.len(),
{
    if chunks.len() == 0 {
        0
    } else {
        chunks[0].encoded_len() + total_len(chunks.subrange(1, chunks.len() as int))
    }
}

/// The model of a chunk.
pub open spec fn chunk_view(chunk: Chunk) -> ChunkView
    decreases chunk,
{
    match chunk {
        Chunk::FOLD(c) => ChunkView::FOLD(
            FOLDChunkView {
                header: c.header@,
                chunks: Seq::new(
                    c.chunks@.len(),
                    |i: int|
                        if 0 <= i < c.chunks@.len() {
                            chunk_view(c.chunks@[i])
                        } else {
                            arbitrary()
                        },
                ),
            },
        ),
        Chunk::DATA(c) => ChunkView::DATA(c@),
        Chunk::DATADATA(c) => ChunkView::DATADATA(c@),
        Chunk::DATASDSC(c) => ChunkView::DATASDSC(c@),
    }
}

impl DeepView for Chunk {
    type V = ChunkView;

    open spec fn deep_view(&self) -> ChunkView {
        chunk_view(*self)
    }
}

impl View for Chunk {
    type V = ChunkView;

    open spec fn view(&self) -> ChunkView {
        self.deep_view()
    }
}

impl DeepView for FOLDChunk {
    type V = FOLDChunkView;

    open spec fn deep_view(&self) -> FOLDChunkView {
        FOLDChunkView { header: self.header@, chunks: self.chunks.deep_view() }
    }
}

impl View for FOLDChunk {
    type V = FOLDChunkView;

    open spec fn view(&self) -> FOLDChunkView {
        self.deep_view()
    }
}

impl DeepView for TrashDATAChunk {
    type V = TrashDATAChunkView;

    open spec fn deep_view(&self) -> TrashDATAChunkView {
        TrashDATAChunkView { header: self.header@, data: self.data@ }
    }
}

impl View for TrashDATAChunk {
    type V = TrashDATAChunkView;

    open spec fn view(&self) -> TrashDATAChunkView {
        self.deep_view()
    }
}

impl DeepView for DATADATAChunk {
    type V = DATADATAChunkView;

    open spec fn deep_view(&self) -> DATADATAChunkView {
        DATADATAChunkView {
            header: self.header@,
            opponent_type: self.opponent_type,
            players: self.players.deep_view(),
            matchhistory_id: self.matchhistory_id,
            section_resources: self.section_resources@,
            option_resources: self.option_resources@,
            section_tickets: self.section_tickets@,
            option_tickets: self.option_tickets@,
            unknown_string: self.unknown_string@,
        }
    }
}

impl View for DATADATAChunk {
    type V = DATADATAChunkView;

    open spec fn view(&self) -> DATADATAChunkView {
        self.deep_view()
    }
}

impl DeepView for DATASDSCChunk {
    type V = DATASDSCChunkView;

    open spec fn deep_view(&self) -> DATASDSCChunkView {
        DATASDSCChunkView {
            header: self.header@,
            map_file: self.map_file@,
            map_name: self.map_name@,
            map_description: self.map_description@,
        }
    }
}

impl View for DATASDSCChunk {
    type V = DATASDSCChunkView;

    open spec fn view(&self) -> DATASDSCChunkView {
        self.deep_view()
    }
}

/// The model of a container is the container of the models of its chunks.
pub proof fn lemma_fold_view(fold: FOLDChunk)
    ensures
        chunk_view(Chunk::FOLD(fold)) == ChunkView::FOLD(fold@),
{
    assert(chunk_view(Chunk::FOLD(fold))->FOLD_0.chunks =~= fold@.chunks);
}

/// The kind of a chunk: four bytes that are `DATA` or `FOLD`.  Bytes that
/// are neither are a malformed buffer; the chunk is not committed yet.
pub open spec fn spec_parse_chunk_kind(s: Seq<u8>) -> Parsed<Seq<char>> {
    if spec_tag(s, data_tag()) is Ok {
        Ok((utf8_lossy(data_tag()), after(s, 4)))
    } else if spec_tag(s, fold_tag()) is Ok {
        Ok((utf8_lossy(fold_tag()), after(s, 4)))
    } else if s.len() < 4 {
        Err(incomplete())
    } else {
        Err(malformed())
    }
}

/// What follows the kind in a header: the type, the version, the length of
/// the body and the length of the name.
#[verifier::opaque]
pub open spec fn spec_chunk_header_fields(s: Seq<u8>, chunk_kind: Seq<char>) -> Parsed<
    ChunkHeaderView,
> {
    let chunk_type = spec_parse_utf8_fixed(s, 4);
    let version = spec_le_u32(rest_of(chunk_type));
    let length = spec_le_u32(rest_of(version));
    let name_length = spec_le_u32(rest_of(length));
    Fields::none().and(chunk_type).and(version).and(length).and(name_length).outcome(
        ChunkHeaderView {
            chunk_kind,
            chunk_type: value_of(chunk_type),
            version: value_of(version),
            length: value_of(length),
            name_length: value_of(name_length),
        },
        rest_of(name_length),
    )
}

/// The header of a chunk.  What follows the kind is committed.
pub open spec fn spec_parse_chunk_header(s: Seq<u8>) -> Parsed<ChunkHeaderView> {
    match spec_parse_chunk_kind(s) {
        Ok((chunk_kind, rest)) => spec_cut(spec_chunk_header_fields(rest, chunk_kind)),
        Err(e) => Err(e),
    }
}

/// A body that is kept as it is: exactly as many bytes as the header states.
pub open spec fn spec_parse_trash_data(s: Seq<u8>, header: ChunkHeaderView) -> Parsed<ChunkView> {
    spec_cut(
        match spec_take(s, header.length as nat) {
            Ok((data, rest)) => Ok((ChunkView::DATA(TrashDATAChunkView { header, data }), rest)),
            Err(e) => Err(e),
        },
    )
}

/// The players: a 32-bit count and that many players.
pub open spec fn spec_parse_players(s: Seq<u8>) -> Parsed<Seq<PlayerView>> {
    match spec_count_n::<Player>(s) {
        Ok(((_, players), rest)) => Ok((players, rest)),
        Err(e) => Err(e),
    }
}

/// The five counted texts at the end of the setup of a game, in their
/// order.  Four bytes stand before the second, the third and the fourth,
/// and sixteen before the last.
#[verifier::opaque]
pub open spec fn spec_datadata_options(s: Seq<u8>) -> Parsed<
    (Seq<char>, Seq<char>, Seq<char>, Seq<char>, Seq<char>),
> {
    let section_resources = spec_counted_utf8(s);
    let pad1 = spec_take(rest_of(section_resources), 4);
    let option_resources = spec_counted_utf8(rest_of(pad1));
    let pad2 = spec_take(rest_of(option_resources), 4);
    let section_tickets = spec_counted_utf8(rest_of(pad2));
    let pad3 = spec_take(rest_of(section_tickets), 4);
    let option_tickets = spec_counted_utf8(rest_of(pad3));
    let pad4 = spec_take(rest_of(option_tickets), 16);
    let unknown_string = spec_counted_utf8(rest_of(pad4));
    Fields::none().and(section_resources).and(pad1).and(option_resources).and(pad2).and(
        section_tickets,
    ).and(pad3).and(option_tickets).and(pad4).and(unknown_string).outcome(
        (
            value_of(section_resources),
            value_of(option_resources),
            value_of(section_tickets),
            value_of(option_tickets),
            value_of(unknown_string),
        ),
        rest_of(unknown_string),
    )
}

/// The fields of the setup of a game, in this order: the kind of opponent,
/// six bytes, the players, a counted block, four bytes, the identifier of
/// the match, a counted block, and the five counted texts.
#[verifier::opaque]
pub open spec fn spec_datadata_body(s: Seq<u8>, header: ChunkHeaderView) -> Parsed<ChunkView> {
    let opponent_type = spec_le_u32(s);
    let pad1 = spec_take(rest_of(opponent_type), 6);
    let players = spec_parse_players(rest_of(pad1));
    let block1 = spec_take_n(rest_of(players));
    let pad2 = spec_take(rest_of(block1), 4);
    let matchhistory_id = spec_le_u64(rest_of(pad2));
    let block2 = spec_take_n(rest_of(matchhistory_id));
    let options = spec_datadata_options(rest_of(block2));
    Fields::none().and(opponent_type).and(pad1).and(players).and(block1).and(pad2).and(
        matchhistory_id,
    ).and(block2).and(options).outcome(
        ChunkView::DATADATA(
            DATADATAChunkView {
                header,
                opponent_type: value_of(opponent_type),
                players: value_of(players),
                matchhistory_id: value_of(matchhistory_id),
                section_resources: value_of(options).0,
                option_resources: value_of(options).1,
                section_tickets: value_of(options).2,
                option_tickets: value_of(options).3,
                unknown_string: value_of(options).4,
            },
        ),
        rest_of(options),
    )
}

/// A body is decoded within its own bytes: exactly as many as the header
/// states are set apart, `body` is what their decoding yields, and the
/// buffer goes on after them whatever that decoding left over.
pub open spec fn spec_within(block: Parsed<Seq<u8>>, body: Parsed<ChunkView>) -> Parsed<
    ChunkView,
> {
    match block {
        Ok((_, rest)) => match body {
            Ok((chunk, _)) => Ok((chunk, rest)),
            Err(e) => Err(e),
        },
        Err(e) => Err(e),
    }
}

/// Whether the body has the layout of the first version, which is kept as
/// it is and not interpreted.
pub open spec fn legacy_layout(header: ChunkHeaderView) -> bool {
    header.version == 1
}

/// The setup of a game.  Its body is kept as it is where it has the layout
/// of the first version, and decoded within its own bytes otherwise.
pub open spec fn spec_parse_datadata(s: Seq<u8>, header: ChunkHeaderView) -> Parsed<ChunkView> {
    if legacy_layout(header) {
        spec_parse_trash_data(s, header)
    } else {
        let block = spec_take(s, header.length as nat);
        spec_cut(spec_within(block, spec_datadata_body(value_of(block), header)))
    }
}

/// The fields of the description of a map: 121 bytes, the file of the map
/// as counted 8-bit text, its name as counted 16-bit text, four bytes, and
/// its description as counted 16-bit text.
#[verifier::opaque]
pub open spec fn spec_datasdsc_body(s: Seq<u8>, header: ChunkHeaderView) -> Parsed<ChunkView> {
    let pad1 = spec_take(s, 121);
    let map_file = spec_counted_utf8(rest_of(pad1));
    let map_name = spec_counted_utf16(rest_of(map_file));
    let pad2 = spec_take(rest_of(map_name), 4);
    let map_description = spec_counted_utf16(rest_of(pad2));
    Fields::none().and(pad1).and(map_file).and(map_name).and(pad2).and(map_description).outcome(
        ChunkView::DATASDSC(
            DATASDSCChunkView {
                header,
                map_file: value_of(map_file),
                map_name: value_of(map_name),
                map_description: value_of(map_description),
            },
        ),
        rest_of(map_description),
    )
}

/// The description of a map, decoded within the bytes of its body.
pub open spec fn spec_parse_datasdsc(s: Seq<u8>, header: ChunkHeaderView) -> Parsed<ChunkView> {
    let block = spec_take(s, header.length as nat);
    spec_cut(spec_within(block, spec_datasdsc_body(value_of(block), header)))
}

/// A chunk: its header, and the body that the kind and the type call for.
pub open spec fn spec_parse_chunk(s: Seq<u8>) -> Parsed<ChunkView>
    decreases s.len(), 1nat,
{
    match spec_parse_chunk_header(s) {
        Ok((header, body)) => {
            proof {
                lemma_header_len(s);
            }
            if spec_tag(s, fold_tag()) is Ok {
                spec_parse_folder_chunk(body, header)
            } else if spec_tag(after(s, 4), data_tag()) is Ok {
                spec_parse_datadata(body, header)
            } else if spec_tag(after(s, 4), sdsc_tag()) is Ok {
                spec_parse_datasdsc(body, header)
            } else {
                spec_parse_trash_data(body, header)
            }
        },
        Err(e) => Err(e),
    }
}

/// A container: the bytes of its body hold chunks, one after the other, and
/// nothing else.  Bytes that are left after the last chunk are a malformed
/// buffer.
pub open spec fn spec_parse_folder_chunk(s: Seq<u8>, header: ChunkHeaderView) -> Parsed<ChunkView>
    decreases s.len(), 3nat,
{
    spec_cut(
        match spec_take(s, header.length as nat) {
            Ok((block, rest)) => match spec_parse_chunks(block) {
                Ok((chunks, left)) => match spec_enforce_end_of_input(left) {
                    Ok(_) => Ok((ChunkView::FOLD(FOLDChunkView { header, chunks }), rest)),
                    Err(e) => Err(e),
                },
                Err(e) => Err(e),
            },
            Err(e) => Err(e),
        },
    )
}

/// Chunks, one after the other, up to the first place where no chunk is
/// recognised.  A chunk that is recognised and fails ends the decoding.
pub open spec fn spec_parse_chunks(s: Seq<u8>) -> Parsed<Seq<ChunkView>>
    decreases s.len(), 2nat,
{
    match spec_parse_chunk(s) {
        Ok((chunk, rest)) => if rest.len() < s.len() {
            spec_cons(chunk, spec_parse_chunks(rest))
        } else {
            Err(malformed())
        },
        Err(e) => if e.fatal {
            Err(e)
        } else {
            Ok((Seq::empty(), s))
        },
    }
}

/// A header that decodes takes exactly twenty bytes.
pub proof fn lemma_header_len(s: Seq<u8>)
    ensures
        spec_parse_chunk_header(s) matches Ok((_, rest)) ==> s.len() >= CHUNK_HEADER_LEN && rest
            == after(s, CHUNK_HEADER_LEN as int),
{
    reveal(spec_chunk_header_fields);
    if let Ok((_, rest)) = spec_parse_chunk_header(s) {
        assert(rest =~= after(s, CHUNK_HEADER_LEN as int));
    }
}

/// None of the players that decode carries more items than its faction
/// allows.
pub proof fn lemma_players(s: Seq<u8>, n: nat)
    ensures
        spec_count::<Player>(s, n) matches Ok((players, _)) ==> forall|i: int|
            0 <= i < players.len() ==> (#[trigger] players[i]).wf(),
{
    assert forall|b: Seq<u8>| (#[trigger] Player::spec_parse(b)) matches Ok((player, _))
        ==> player.wf() by {
        lemma_player_items(b);
    }
    lemma_count_all::<Player>(s, n, |player: PlayerView| player.wf());
}

/// In a setup that decodes no player carries more items than its faction
/// allows.
pub proof fn lemma_datadata_wf(s: Seq<u8>, header: ChunkHeaderView)
    ensures
        spec_datadata_body(s, header) matches Ok((chunk, _)) ==> chunk.wf(),
{
    reveal(spec_datadata_body);
    let start = rest_of(spec_take(rest_of(spec_le_u32(s)), 6));
    if let Ok((count, rest)) = spec_le_u32(start) {
        lemma_players(rest, count as nat);
    }
}

/// The chunks take the bytes of the first and then those of the others.
pub proof fn lemma_total_len_cons(chunk: ChunkView, chunks: Seq<ChunkView>)
    ensures
        total_len(seq![chunk] + chunks) == chunk.encoded_len() + total_len(chunks),
{
    let all = seq![chunk] + chunks;
    assert(all.subrange(1, all.len() as int) =~= chunks);
}

/// What a body yields is exact: the chunk carries the header it was decoded
/// under and is as long as that header states, and the buffer goes on right
/// behind the body.
pub open spec fn body_exact(s: Seq<u8>, header: ChunkHeaderView, p: Parsed<ChunkView>) -> bool {
    p matches Ok((chunk, rest)) ==> {
        &&& chunk.wf()
        &&& chunk.header() == header
        &&& header.length <= s.len()
        &&& rest == after(s, header.length as int)
    }
}

/// A body that is kept as it is is exact.
pub proof fn lemma_trash_data_exact(s: Seq<u8>, header: ChunkHeaderView)
    ensures
        body_exact(s, header, spec_parse_trash_data(s, header)),
{
}

/// The setup of a game that decodes is exact.
pub proof fn lemma_datadata_exact(s: Seq<u8>, header: ChunkHeaderView)
    ensures
        body_exact(s, header, spec_parse_datadata(s, header)),
{
    reveal(spec_datadata_body);
    lemma_datadata_wf(s.subrange(0, header.length as int), header);
}

/// The description of a map that decodes is exact.
pub proof fn lemma_datasdsc_exact(s: Seq<u8>, header: ChunkHeaderView)
    ensures
        body_exact(s, header, spec_parse_datasdsc(s, header)),
{
    reveal(spec_datasdsc_body);
}

/// A container that decodes is exact, and so is every chunk within it.
pub proof fn lemma_folder_chunk_exact(s: Seq<u8>, header: ChunkHeaderView)
    ensures
        body_exact(s, header, spec_parse_folder_chunk(s, header)),
    decreases s.len(), 3nat,
{
    if header.length <= s.len() {
        lemma_chunks_exact(s.subrange(0, header.length as int));
    }
}

/// A container whose chunks do not add up to the length that its header
/// states is malformed: the decoding ends, and no shorter container comes
/// back in its place.
pub proof fn lemma_folder_chunk_length_checked(s: Seq<u8>, header: ChunkHeaderView)
    requires
        header.length <= s.len(),
        spec_parse_chunks(s.subrange(0, header.length as int)) matches Ok((chunks, _))
            && total_len(chunks) != header.length,
    ensures
        spec_parse_folder_chunk(s, header) == Err::<(ChunkView, Seq<u8>), ParseError>(
            malformed().committed(),
        ),
{
    lemma_chunks_exact(s.subrange(0, header.length as int));
}

/// A chunk that decodes is exactly as long as its header states, all the way
/// down, and the buffer goes on right behind it.
pub proof fn lemma_chunk_exact(s: Seq<u8>)
    ensures
        spec_parse_chunk(s) matches Ok((chunk, rest)) ==> {
            &&& chunk.wf()
            &&& chunk.encoded_len() <= s.len()
            &&& rest == after(s, chunk.encoded_len() as int)
        },
    decreases s.len(), 1nat,
{
    if let Ok((chunk, rest)) = spec_parse_chunk(s) {
        lemma_header_len(s);
        let header = spec_parse_chunk_header(s)->Ok_0.0;
        let body = after(s, CHUNK_HEADER_LEN as int);
        lemma_folder_chunk_exact(body, header);
        lemma_datadata_exact(body, header);
        lemma_datasdsc_exact(body, header);
        lemma_trash_data_exact(body, header);
        assert(after(body, header.length as int) =~= after(s, CHUNK_HEADER_LEN + header.length));
    }
}

/// Chunks that decode one after the other are each exactly as long as its
/// header states, and the buffer goes on right behind the last.
pub proof fn lemma_chunks_exact(s: Seq<u8>)
    ensures
        spec_parse_chunks(s) matches Ok((chunks, rest)) ==> {
            &&& forall|i: int| 0 <= i < chunks.len() ==> (#[trigger] chunks[i]).wf()
            &&& total_len(chunks) <= s.len()
            &&& rest == after(s, total_len(chunks) as int)
        },
    decreases s.len(), 2nat,
{
    lemma_chunk_exact(s);
    match spec_parse_chunk(s) {
        Ok((chunk, r1)) => {
            if r1.len() < s.len() {
                lemma_chunks_exact(r1);
                if let Ok((chunks, rest)) = spec_parse_chunks(r1) {
                    let all = seq![chunk] + chunks;
                    lemma_total_len_cons(chunk, chunks);
                    assert(rest =~= after(s, total_len(all) as int));
                    assert forall|i: int| 0 <= i < all.len() implies (#[trigger] all[i]).wf() by {
                        if i > 0 {
                            assert(all[i] == chunks[i - 1]);
                        }
                    }
                }
            }
        },
        Err(e) => {
            assert(after(s, 0) =~= s);
        },
    }
}

impl ChunkHeader {
    /// Decodes the header of a chunk.  A kind that is not recognised leaves
    /// the chunk uncommitted; every failure after the kind ends the
    /// decoding.
    pub fn parse_chunk_header(input: &[u8]) -> (r: Result<(ChunkHeader, &[u8]), ParseError>)
        ensures
            parsed_as(r, spec_parse_chunk_header(input@)),
            r matches Ok((_, rest)) ==> input@.len() >= CHUNK_HEADER_LEN && rest@ == after(
                input@,
                CHUNK_HEADER_LEN as int,
            ),
    {
        proof {
            lemma_header_len(input@);
        }
        let (chunk_kind, r1) = Self::parse_chunk_kind(input)?;
        match Self::parse_fields(r1, chunk_kind) {
            Ok(v) => Ok(v),
            Err(e) => Err(e.commit()),
        }
    }

    fn parse_fields(input: &[u8], chunk_kind: String) -> (r: Result<
        (ChunkHeader, &[u8]),
        ParseError,
    >)
        ensures
            parsed_as(r, spec_chunk_header_fields(input@, chunk_kind@)),
    {
        reveal(spec_chunk_header_fields);
        let (chunk_type, r1) = Self::parse_chunk_type(input)?;
        let (version, r2) = Self::parse_version(r1)?;
        let (length, r3) = Self::parse_length(r2)?;
        let (name_length, r4) = Self::parse_name_length(r3)?;
        Ok((ChunkHeader { chunk_kind, chunk_type, version, length, name_length }, r4))
    }

    /// Recognises the kind, `DATA` or `FOLD`, and decodes it as text.
    pub fn parse_chunk_kind(input: &[u8]) -> (r: Result<(String, &[u8]), ParseError>)
        ensures
            parsed_as(r, spec_parse_chunk_kind(input@)),
    {
        let data = data_tag_bytes();
        let fold = fold_tag_bytes();
        match tag(input, data.as_slice()) {
            Ok((bytes, rest)) => Ok((string_from_utf8_lossy(bytes), rest)),
            Err(_) => {
                let (bytes, rest) = tag(input, fold.as_slice())?;
                Ok((string_from_utf8_lossy(bytes), rest))
            },
        }
    }

    /// Decodes the four-byte type as text.
    pub fn parse_chunk_type(input: &[u8]) -> (r: Result<(String, &[u8]), ParseError>)
        ensures
            parsed_as(r, spec_parse_utf8_fixed(input@, 4)),
    {
        parse_utf8_fixed(input, 4)
    }

    /// Decodes the version.
    pub fn parse_version(input: &[u8]) -> (r: Result<(u32, &[u8]), ParseError>)
        ensures
            parsed_as(r, spec_le_u32(input@)),
    {
        le_u32(input)
    }

    /// Decodes the length of the body.
    pub fn parse_length(input: &[u8]) -> (r: Result<(u32, &[u8]), ParseError>)
        ensures
            parsed_as(r, spec_le_u32(input@)),
    {
        le_u32(input)
    }

    /// Decodes the length of the name.
    pub fn parse_name_length(input: &[u8]) -> (r: Result<(u32, &[u8]), ParseError>)
        ensures
            parsed_as(r, spec_le_u32(input@)),
    {
        le_u32(input)
    }
}

fn data_tag_bytes() -> (t: [u8; 4])
    ensures
        t@ == data_tag(),
{
    let t: [u8; 4] = [0x44, 0x41, 0x54, 0x41];
    assert(t@ =~= data_tag());
    t
}

fn fold_tag_bytes() -> (t: [u8; 4])
    ensures
        t@ == fold_tag(),
{
    let t: [u8; 4] = [0x46, 0x4f, 0x4c, 0x44];
    assert(t@ =~= fold_tag());
    t
}

fn sdsc_tag_bytes() -> (t: [u8; 4])
    ensures
        t@ == sdsc_tag(),
{
    let t: [u8; 4] = [0x53, 0x44, 0x53, 0x43];
    assert(t@ =~= sdsc_tag());
    t
}

impl Chunk {
    /// Decodes a chunk: its header, and then its body as the kind and the
    /// type call for.  A container is decoded chunk by chunk; the setup of
    /// the game and the description of the map are decoded field by field;
    /// data of any other type is kept as it is.
    ///
    /// The chunk that comes back is exactly as long as its header states,
    /// and so is every chunk within it.
    pub fn parse_chunk(input: &[u8]) -> (r: Result<(Chunk, &[u8]), ParseError>)
        ensures
            parsed_as(r, spec_parse_chunk(input@)),
            r matches Ok((chunk, rest)) ==> {
                &&& chunk@.wf()
                &&& chunk@.encoded_len() <= input@.len()
                &&& rest@ == after(input@, chunk@.encoded_len() as int)
            },
        decreases input@.len(), 1nat,
    {
        proof {
            lemma_chunk_exact(input@);
        }
        let (header, body) = ChunkHeader::parse_chunk_header(input)?;
        let fold = fold_tag_bytes();
        let data = data_tag_bytes();
        let sdsc = sdsc_tag_bytes();
        let chunk_type = slice_subrange(input, 4, input.len());
        if starts_with(input, fold.as_slice()) {
            FOLDChunk::parse_folder_chunk(body, header)
        } else if starts_with(chunk_type, data.as_slice()) {
            DATADATAChunk::parse_chunk(body, header)
        } else if starts_with(chunk_type, sdsc.as_slice()) {
            DATASDSCChunk::parse_chunk(body, header)
        } else {
            TrashDATAChunk::parse_chunk(body, header)
        }
    }

    /// Decodes chunks, one after the other, up to the first place where no
    /// chunk is recognised, and hands back the bytes from that place on.
    pub fn parse_chunks(input: &[u8]) -> (r: Result<(Vec<Chunk>, &[u8]), ParseError>)
        ensures
            parsed_as(r, spec_parse_chunks(input@)),
        decreases input@.len(), 2nat,
    {
        let mut chunks: Vec<Chunk> = Vec::new();
        let mut cur = input;
        proof {
            lemma_deep_view_empty(chunks);
            lemma_seq_after_start(spec_parse_chunks(input@));
        }
        loop
            invariant
                cur@.len() <= input@.len(),
                spec_parse_chunks(input@) == seq_after(
                    chunks.deep_view(),
                    spec_parse_chunks(cur@),
                ),
            decreases cur@.len(),
        {
            let ghost before = chunks;
            match Chunk::parse_chunk(cur) {
                Ok((chunk, rest)) => {
                    proof {
                        lemma_seq_after_step(
                            chunks.deep_view(),
                            chunk.deep_view(),
                            spec_parse_chunks(rest@),
                        );
                    }
                    chunks.push(chunk);
                    proof {
                        lemma_deep_view_push(before, chunks, chunk);
                    }
                    cur = rest;
                },
                Err(e) => {
                    if e.fatal {
                        return Err(e);
                    }
                    proof {
                        lemma_seq_after_end(chunks.deep_view(), cur@);
                    }
                    return Ok((chunks, cur));
                },
            }
        }
    }
}

impl FOLDChunk {
    /// Decodes the body of a container whose header is `header`: exactly as
    /// many bytes as the header states are set apart, and they have to hold
    /// chunks and nothing else.  Every failure ends the decoding; bytes that
    /// are left after the last chunk are a malformed buffer.
    pub fn parse_folder_chunk(input: &[u8], header: ChunkHeader) -> (r: Result<
        (Chunk, &[u8]),
        ParseError,
    >)
        ensures
            parsed_as(r, spec_parse_folder_chunk(input@, header@)),
            r matches Ok((chunk, rest)) ==> {
                &&& chunk@.wf()
                &&& chunk@.header() == header@
                &&& rest@ == after(input@, header.length as int)
            },
        decreases input@.len(), 3nat,
    {
        proof {
            lemma_folder_chunk_exact(input@, header@);
        }
        let (block, rest) = match take(input, header.length as usize) {
            Ok(v) => v,
            Err(e) => {
                return Err(e.commit());
            },
        };
        let (chunks, left) = match Chunk::parse_chunks(block) {
            Ok(v) => v,
            Err(e) => {
                return Err(e.commit());
            },
        };
        match enforce_end_of_input(left) {
            Ok(_) => {},
            Err(e) => {
                return Err(e.commit());
            },
        }
        let fold = FOLDChunk { header, chunks };
        proof {
            lemma_fold_view(fold);
        }
        Ok((Chunk::FOLD(fold), rest))
    }
}

impl TrashDATAChunk {
    /// Keeps the body of a chunk whose header is `header` as it is: exactly
    /// as many bytes as the header states.  A buffer that is too short ends
    /// the decoding.
    pub fn parse_chunk(input: &[u8], header: ChunkHeader) -> (r: Result<
        (Chunk, &[u8]),
        ParseError,
    >)
        ensures
            parsed_as(r, spec_parse_trash_data(input@, header@)),
            r matches Ok((chunk, rest)) ==> {
                &&& chunk@.wf()
                &&& chunk@.header() == header@
                &&& rest@ == after(input@, header.length as int)
            },
    {
        proof {
            lemma_trash_data_exact(input@, header@);
        }
        match take(input, header.length as usize) {
            Ok((data, rest)) => Ok(
                (Chunk::DATA(TrashDATAChunk { header, data: slice_to_vec(data) }), rest),
            ),
            Err(e) => Err(e.commit()),
        }
    }
}

impl DATADATAChunk {
    /// Decodes the setup of a game from the body of a chunk whose header is
    /// `header`.  A body of the first version is kept as it is.  Every
    /// failure ends the decoding.
    pub fn parse_chunk(input: &[u8], header: ChunkHeader) -> (r: Result<
        (Chunk, &[u8]),
        ParseError,
    >)
        ensures
            parsed_as(r, spec_parse_datadata(input@, header@)),
            r matches Ok((chunk, rest)) ==> {
                &&& chunk@.wf()
                &&& chunk@.header() == header@
                &&& rest@ == after(input@, header.length as int)
            },
    {
        proof {
            lemma_datadata_exact(input@, header@);
        }
        if header.version == 1 {
            return TrashDATAChunk::parse_chunk(input, header);
        }
        let (block, rest) = match take(input, header.length as usize) {
            Ok(v) => v,
            Err(e) => {
                return Err(e.commit());
            },
        };
        match Self::parse_body(block, header) {
            Ok((chunk, _)) => Ok((chunk, rest)),
            Err(e) => Err(e.commit()),
        }
    }

    fn parse_body(input: &[u8], header: ChunkHeader) -> (r: Result<(Chunk, &[u8]), ParseError>)
        ensures
            parsed_as(r, spec_datadata_body(input@, header@)),
    {
        reveal(spec_datadata_body);
        let (opponent_type, r1) = Self::parse_opponent_type(input)?;
        let (_, r2) = take(r1, 6)?;
        let (players, r3) = Self::parse_players(r2)?;
        let (_, r4) = take_n(r3)?;
        let (_, r5) = take(r4, 4)?;
        let (matchhistory_id, r6) = le_u64(r5)?;
        let (_, r7) = take_n(r6)?;
        let (options, r8) = Self::parse_options(r7)?;
        Ok(
            (
                Chunk::DATADATA(
                    DATADATAChunk {
                        header,
                        opponent_type,
                        players,
                        matchhistory_id,
                        section_resources: options.0,
                        option_resources: options.1,
                        section_tickets: options.2,
                        option_tickets: options.3,
                        unknown_string: options.4,
                    },
                ),
                r8,
            ),
        )
    }

    fn parse_options(input: &[u8]) -> (r: Result<
        ((String, String, String, String, String), &[u8]),
        ParseError,
    >)
        ensures
            parsed_as(r, spec_datadata_options(input@)),
    {
        reveal(spec_datadata_options);
        let (section_resources, r1) = Self::parse_resource_string(input)?;
        let (_, r2) = take(r1, 4)?;
        let (option_resources, r3) = Self::parse_resource_string(r2)?;
        let (_, r4) = take(r3, 4)?;
        let (section_tickets, r5) = Self::parse_resource_string(r4)?;
        let (_, r6) = take(r5, 4)?;
        let (option_tickets, r7) = Self::parse_resource_string(r6)?;
        let (_, r8) = take(r7, 16)?;
        let (unknown_string, r9) = Self::parse_resource_string(r8)?;
        Ok(
            (
                (section_resources, option_resources, section_tickets, option_tickets, unknown_string),
                r9,
            ),
        )
    }

    /// Decodes the kind of opponent.
    pub fn parse_opponent_type(input: &[u8]) -> (r: Result<(u32, &[u8]), ParseError>)
        ensures
            parsed_as(r, spec_le_u32(input@)),
    {
        le_u32(input)
    }

    /// Decodes the players: a 32-bit count and that many players.
    pub fn parse_players(input: &[u8]) -> (r: Result<(Vec<Player>, &[u8]), ParseError>)
        ensures
            parsed_as(r, spec_parse_players(input@)),
    {
        let ((_, players), rest) = count_n::<Player>(input)?;
        Ok((players, rest))
    }

    /// Decodes one of the counted texts of the setup.
    pub fn parse_resource_string(input: &[u8]) -> (r: Result<(String, &[u8]), ParseError>)
        ensures
            parsed_as(r, spec_counted_utf8(input@)),
    {
        counted_utf8(input)
    }
}

impl DATASDSCChunk {
    /// Decodes the description of a map from the body of a chunk whose
    /// header is `header`.  Every failure ends the decoding.
    pub fn parse_chunk(input: &[u8], header: ChunkHeader) -> (r: Result<
        (Chunk, &[u8]),
        ParseError,
    >)
        ensures
            parsed_as(r, spec_parse_datasdsc(input@, header@)),
            r matches Ok((chunk, rest)) ==> {
                &&& chunk@.wf()
                &&& chunk@.header() == header@
                &&& rest@ == after(input@, header.length as int)
            },
    {
        proof {
            lemma_datasdsc_exact(input@, header@);
        }
        let (block, rest) = match take(input, header.length as usize) {
            Ok(v) => v,
            Err(e) => {
                return Err(e.commit());
            },
        };
        match Self::parse_body(block, header) {
            Ok((chunk, _)) => Ok((chunk, rest)),
            Err(e) => Err(e.commit()),
        }
    }

    fn parse_body(input: &[u8], header: ChunkHeader) -> (r: Result<(Chunk, &[u8]), ParseError>)
        ensures
            parsed_as(r, spec_datasdsc_body(input@, header@)),
    {
        reveal(spec_datasdsc_body);
        let (_, r1) = take(input, 121)?;
        let (map_file, r2) = Self::parse_map_file(r1)?;
        let (map_name, r3) = Self::parse_map_identifier(r2)?;
        let (_, r4) = take(r3, 4)?;
        let (map_description, r5) = Self::parse_map_identifier(r4)?;
        Ok((Chunk::DATASDSC(DATASDSCChunk { header, map_file, map_name, map_description }), r5))
    }

    /// Decodes the file of the map.
    pub fn parse_map_file(input: &[u8]) -> (r: Result<(String, &[u8]), ParseError>)
        ensures
            parsed_as(r, spec_counted_utf8(input@)),
    {
        counted_utf8(input)
    }

    /// Decodes the name or the description of the map.
    pub fn parse_map_identifier(input: &[u8]) -> (r: Result<(String, &[u8]), ParseError>)
        ensures
            parsed_as(r, spec_counted_utf16(input@)),
    {
        counted_utf16(input)
    }
}

impl Clone for ChunkHeader {
    fn clone(&self) -> (r: Self)
        ensures
            r@ == self@,
    {
        ChunkHeader {
            chunk_kind: self.chunk_kind.clone(),
            chunk_type: self.chunk_type.clone(),
            version: self.version,
            length: self.length,
            name_length: self.name_length,
        }
    }
}

impl Clone for TrashDATAChunk {
    fn clone(&self) -> (r: Self)
        ensures
            r@ == self@,
    {
        TrashDATAChunk { header: self.header.clone(), data: slice_to_vec(self.data.as_slice()) }
    }
}

impl Clone for DATADATAChunk {
    fn clone(&self) -> (r: Self)
        ensures
            r@ == self@,
    {
        let mut players: Vec<Player> = Vec::new();
        let mut i: usize = 0;
        while i < self.players.len()
            invariant
                i <= self.players.len(),
                players.deep_view() =~= self.players.deep_view().subrange(0, i as int),
            decreases self.players.len() - i,
        {
            let ghost before = players;
            let player = self.players[i].clone();
            players.push(player);
            proof {
                lemma_deep_view_push(before, players, player);
            }
            i += 1;
        }
        assert(players.deep_view() =~= self.players.deep_view());
        DATADATAChunk {
            header: self.header.clone(),
            opponent_type: self.opponent_type,
            players,
            matchhistory_id: self.matchhistory_id,
            section_resources: self.section_resources.clone(),
            option_resources: self.option_resources.clone(),
            section_tickets: self.section_tickets.clone(),
            option_tickets: self.option_tickets.clone(),
            unknown_string: self.unknown_string.clone(),
        }
    }
}

impl Clone for DATASDSCChunk {
    fn clone(&self) -> (r: Self)
        ensures
            r@ == self@,
    {
        DATASDSCChunk {
            header: self.header.clone(),
            map_file: self.map_file.clone(),
            map_name: self.map_name.clone(),
            map_description: self.map_description.clone(),
        }
    }
}

impl Clone for FOLDChunk {
    fn clone(&self) -> (r: Self)
        ensures
            r@ == self@,
        decreases self, 0nat,
    {
        let mut chunks: Vec<Chunk> = Vec::new();
        let mut i: usize = 0;
        while i < self.chunks.len()
            invariant
                i <= self.chunks.len(),
                chunks.deep_view() =~= self.chunks.deep_view().subrange(0, i as int),
            decreases self.chunks.len() - i,
        {
            let ghost before = chunks;
            let chunk = self.chunks[i].clone();
            chunks.push(chunk);
            proof {
                lemma_deep_view_push(before, chunks, chunk);
            }
            i += 1;
        }
        assert(chunks.deep_view() =~= self.chunks.deep_view());
        FOLDChunk { header: self.header.clone(), chunks }
    }
}

impl Clone for Chunk {
    fn clone(&self) -> (r: Self)
        ensures
            r@ == self@,
        decreases self, 1nat,
    {
        match self {
            Chunk::FOLD(c) => {
                let copy = c.clone();
                proof {
                    lemma_fold_view(*c);
                    lemma_fold_view(copy);
                }
                Chunk::FOLD(copy)
            },
            Chunk::DATA(c) => Chunk::DATA(c.clone()),
            Chunk::DATADATA(c) => Chunk::DATADATA(c.clone()),
            Chunk::DATASDSC(c) => Chunk::DATASDSC(c.clone()),
        }
    }
}

} // verus!
