//! A recorded match as a whole.

use crate::chunks::{
    lemma_chunk_exact, lemma_fold_view, spec_parse_chunk, Chunk, ChunkView, DATADATAChunk,
    DATADATAChunkView, DATASDSCChunk, DATASDSCChunkView,
};
use crate::chunky::{
    lemma_signature_checked, signature_differs, spec_parse_chunky, Chunky, ChunkyView,
};
use crate::error::ParseError;
use crate::header::{spec_parse_header, Header, HeaderView};
use crate::parser::{malformed, parsed_as, rest_of, value_of, Fields, Parsed};
use crate::ticks::{lemma_tick_sequence_ends, spec_parse_ticks, Ticks, TicksView};
use crate::views::{lemma_deep_view_empty, lemma_deep_view_push};
use vstd::prelude::*;

verus! {

broadcast use crate::views::group_plain_deep_views;

/// How many command ticks make one unit of the length of a match.
pub const TICKS_PER_UNIT: usize = 8;

/// A recorded match.
#[derive(Debug, Clone, PartialEq, Eq)]
pub struct Replay {
    pub header: Header,
    /// The two signatures, in their order.
    pub chunkies: Vec<Chunky>,
    /// The three chunks, in their order.
    pub chunks: Vec<Chunk>,
    pub ticks: Ticks,
    /// The number of command ticks, divided by eight.
    pub length: usize,
}

/// The model of a [`Replay`].
pub struct ReplayView {
    pub header: HeaderView,
    pub chunkies: Seq<ChunkyView>,
    pub chunks: Seq<ChunkView>,
    pub ticks: TicksView,
    pub length: nat,
}

impl ReplayView {
    /// Every chunk is exactly as long as its header states, all the way
    /// down, and the length is the number of command ticks divided by
    /// eight.
    pub open spec fn wf(self) -> bool {
        &&& self.chunkies.len() == 2
        &&& self.chunks.len() == 3
        &&& forall|i: int| 0 <= i < self.chunks.len() ==> (#[trigger] self.chunks[i]).wf()
        &&& self.length == self.ticks.command_ticks.len() / TICKS_PER_UNIT as nat
    }
}

impl DeepView for Replay {
    type V = ReplayView;

    open spec fn deep_view(&self) -> ReplayView {
        ReplayView {
            header: self.header@,
            chunkies: self.chunkies.deep_view(),
            chunks: self.chunks.deep_view(),
            ticks: self.ticks@,
            length: self.length as nat,
        }
    }
}

impl View for Replay {
    type V = ReplayView;

    open spec fn view(&self) -> ReplayView {
        self.deep_view()
    }
}

/// The chunks that a chunk stands for among the data of a match: those
/// within it where it is a container, and itself where it is not.
pub open spec fn inner_chunks(chunk: ChunkView) -> Seq<ChunkView> {
    match chunk {
        ChunkView::FOLD(fold) => fold.chunks,
        _ => seq![chunk],
    }
}

/// The chunks with each container among them opened, one level deep.
pub open spec fn data_chunks_of(chunks: Seq<ChunkView>) -> Seq<ChunkView>
    decreases chunks.len(),
{
    if chunks.len() == 0 {
        Seq::empty()
    } else {
        data_chunks_of(chunks.drop_last()) + inner_chunks(chunks.last())
    }
}

/// The first setup of a game among the chunks.
pub open spec fn first_game_data(chunks: Seq<ChunkView>) -> Option<DATADATAChunkView>
    decreases chunks.len(),
{
    if chunks.len() == 0 {
        None
    } else {
        match chunks[0] {
            ChunkView::DATADATA(data) => Some(data),
            _ => first_game_data(chunks.subrange(1, chunks.len() as int)),
        }
    }
}

/// The first description of a map among the chunks.
pub open spec fn first_map_data(chunks: Seq<ChunkView>) -> Option<DATASDSCChunkView>
    decreases chunks.len(),
{
    if chunks.len() == 0 {
        None
    } else {
        match chunks[0] {
            ChunkView::DATASDSC(map) => Some(map),
            _ => first_map_data(chunks.subrange(1, chunks.len() as int)),
        }
    }
}

impl ReplayView {
    /// The chunks of the match with its containers opened, one level deep.
    pub open spec fn data_chunks(self) -> Seq<ChunkView> {
        data_chunks_of(self.chunks)
    }

    /// The setup of the game, where the match holds one.
    pub open spec fn game_data(self) -> Option<DATADATAChunkView> {
        first_game_data(self.data_chunks())
    }

    /// The description of the map, where the match holds one.
    pub open spec fn map_data(self) -> Option<DATASDSCChunkView> {
        first_map_data(self.data_chunks())
    }
}

/// A recorded match: the header, a signature and a chunk, a signature and
/// two chunks, and the ticks up to the end of the buffer.
pub open spec fn spec_parse_replay(s: Seq<u8>) -> Parsed<ReplayView> {
    let header = spec_parse_header(s);
    let first_chunky = spec_parse_chunky(rest_of(header));
    let first_chunk = spec_parse_chunk(rest_of(first_chunky));
    let second_chunky = spec_parse_chunky(rest_of(first_chunk));
    let second_chunk = spec_parse_chunk(rest_of(second_chunky));
    let third_chunk = spec_parse_chunk(rest_of(second_chunk));
    let ticks = spec_parse_ticks(rest_of(third_chunk));
    Fields::none().and(header).and(first_chunky).and(first_chunk).and(second_chunky).and(
        second_chunk,
    ).and(third_chunk).and(ticks).outcome(
        ReplayView {
            header: value_of(header),
            chunkies: seq![value_of(first_chunky), value_of(second_chunky)],
            chunks: seq![value_of(first_chunk), value_of(second_chunk), value_of(third_chunk)],
            ticks: value_of(ticks),
            length: value_of(ticks).command_ticks.len() / TICKS_PER_UNIT as nat,
        },
        rest_of(ticks),
    )
}

/// What decoding a whole buffer yields.
pub open spec fn spec_from_bytes(s: Seq<u8>) -> Result<ReplayView, ParseError> {
    match spec_parse_replay(s) {
        Ok((replay, _)) => Ok(replay),
        Err(e) => Err(e),
    }
}

/// A match that decodes takes the whole buffer, and each of its chunks is
/// exactly as long as its header states, all the way down.
pub proof fn lemma_replay_exact(s: Seq<u8>)
    ensures
        spec_parse_replay(s) matches Ok((replay, rest)) ==> rest.len() == 0 && replay.wf(),
{
    let header = spec_parse_header(s);
    let first_chunky = spec_parse_chunky(rest_of(header));
    let first_chunk = spec_parse_chunk(rest_of(first_chunky));
    let second_chunky = spec_parse_chunky(rest_of(first_chunk));
    let second_chunk = spec_parse_chunk(rest_of(second_chunky));
    let third_chunk = spec_parse_chunk(rest_of(second_chunk));
    lemma_chunk_exact(rest_of(first_chunky));
    lemma_chunk_exact(rest_of(second_chunky));
    lemma_chunk_exact(rest_of(second_chunk));
    lemma_tick_sequence_ends(rest_of(third_chunk));
}

/// A first signature whose constant is any other than the fixed one makes
/// the match malformed, whatever follows it: no chunk is looked at.
pub proof fn lemma_first_signature_checked(s: Seq<u8>)
    requires
        spec_parse_header(s) matches Ok((_, rest)) && signature_differs(rest),
    ensures
        spec_from_bytes(s) == Err::<ReplayView, ParseError>(malformed()),
{
    lemma_signature_checked(rest_of(spec_parse_header(s)));
}

/// A second signature whose constant is any other than the fixed one makes
/// the match malformed, whatever follows it.
pub proof fn lemma_second_signature_checked(s: Seq<u8>)
    requires
        spec_parse_header(s) matches Ok((_, r1)) && spec_parse_chunky(r1) matches Ok((_, r2))
            && spec_parse_chunk(r2) matches Ok((_, r3)) && signature_differs(r3),
    ensures
        spec_from_bytes(s) == Err::<ReplayView, ParseError>(malformed()),
{
    let header = spec_parse_header(s);
    let first_chunky = spec_parse_chunky(rest_of(header));
    let first_chunk = spec_parse_chunk(rest_of(first_chunky));
    lemma_signature_checked(rest_of(first_chunk));
}

impl Replay {
    /// Decodes a recorded match from the bytes of its file.
    ///
    /// The whole buffer is decoded or nothing is: a buffer that ends early,
    /// that holds a constant other than the fixed one, or that holds bytes
    /// after its last tick gives the failure and no match.
    pub fn from_bytes(input: &[u8]) -> (r: Result<Replay, ParseError>)
        ensures
            match r {
                Ok(replay) => spec_from_bytes(input@) == Ok::<ReplayView, ParseError>(replay@)
                    && replay@.wf(),
                Err(e) => spec_from_bytes(input@) == Err::<ReplayView, ParseError>(e),
            },
    {
        match Self::parse_replay(input) {
            Ok((replay, _)) => Ok(replay),
            Err(e) => Err(e),
        }
    }

    /// Decodes a recorded match and hands back what is left of the buffer,
    /// which is nothing.
    pub fn parse_replay(input: &[u8]) -> (r: Result<(Replay, &[u8]), ParseError>)
        ensures
            parsed_as(r, spec_parse_replay(input@)),
            r matches Ok((replay, rest)) ==> rest@.len() == 0 && replay@.wf(),
    {
        proof {
            lemma_replay_exact(input@);
        }
        let (header, r1) = Header::parse_header(input)?;
        let (first_chunky, r2) = Chunky::parse_chunky(r1)?;
        let (first_chunk, r3) = Chunk::parse_chunk(r2)?;
        let (second_chunky, r4) = Chunky::parse_chunky(r3)?;
        let (second_chunk, r5) = Chunk::parse_chunk(r4)?;
        let (third_chunk, r6) = Chunk::parse_chunk(r5)?;
        let (ticks, r7) = Ticks::parse_ticks(r6)?;
        let length = ticks.command_ticks.len() / TICKS_PER_UNIT;
        let mut chunkies: Vec<Chunky> = Vec::new();
        chunkies.push(first_chunky);
        chunkies.push(second_chunky);
        let mut chunks: Vec<Chunk> = Vec::new();
        chunks.push(first_chunk);
        chunks.push(second_chunk);
        chunks.push(third_chunk);
        proof {
            assert(chunkies.deep_view() =~= seq![first_chunky@, second_chunky@]);
            assert(chunks.deep_view() =~= seq![first_chunk@, second_chunk@, third_chunk@]);
        }
        Ok((Replay { header, chunkies, chunks, ticks, length }, r7))
    }

    /// The number of command ticks.
    pub fn len(&self) -> (n: usize)
        ensures
            n == self@.ticks.command_ticks.len(),
    {
        self.ticks.command_ticks.len()
    }

    /// The version of the format.
    pub fn version(&self) -> (v: u16)
        ensures
            v == self@.header.version,
    {
        self.header.version
    }

    /// When the match was recorded.
    pub fn timestamp(&self) -> (t: &str)
        ensures
            t@ == self@.header.timestamp,
    {
        self.header.timestamp.as_str()
    }
}

impl Replay {
    /// The chunks of the match with each container among them opened, one
    /// level deep: the chunks that hold the data.
    pub fn data_chunks(&self) -> (r: Vec<&Chunk>)
        ensures
            r.deep_view() == self@.data_chunks(),
    {
        let mut out: Vec<&Chunk> = Vec::new();
        let mut i: usize = 0;
        let ghost all = self.chunks.deep_view();
        proof {
            lemma_deep_view_empty(out);
            assert(all.subrange(0, 0) =~= Seq::empty());
        }
        while i < self.chunks.len()
            invariant
                i <= self.chunks.len(),
                all == self.chunks.deep_view(),
                out.deep_view() == data_chunks_of(all.subrange(0, i as int)),
            decreases self.chunks.len() - i,
        {
            let chunk = &self.chunks[i];
            let ghost upto = all.subrange(0, i as int);
            proof {
                assert(all.subrange(0, i + 1).drop_last() =~= upto);
                assert(all.subrange(0, i + 1).last() == chunk@);
            }
            match chunk {
                Chunk::FOLD(fold) => {
                    proof {
                        lemma_fold_view(*fold);
                        assert(fold.chunks.deep_view().subrange(0, 0) =~= Seq::empty());
                        assert(out.deep_view() + Seq::<ChunkView>::empty() =~= out.deep_view());
                    }
                    let mut j: usize = 0;
                    while j < fold.chunks.len()
                        invariant
                            j <= fold.chunks.len(),
                            out.deep_view() == data_chunks_of(upto)
                                + fold.chunks.deep_view().subrange(0, j as int),
                        decreases fold.chunks.len() - j,
                    {
                        let ghost before = out;
                        out.push(&fold.chunks[j]);
                        proof {
                            lemma_deep_view_push(before, out, &fold.chunks[j as int]);
                            assert(fold.chunks.deep_view().subrange(0, j + 1)
                                =~= fold.chunks.deep_view().subrange(0, j as int).push(
                                fold.chunks[j as int]@,
                            ));
                            assert(data_chunks_of(upto) + fold.chunks.deep_view().subrange(
                                0,
                                j + 1,
                            ) =~= (data_chunks_of(upto) + fold.chunks.deep_view().subrange(
                                0,
                                j as int,
                            )).push(fold.chunks[j as int]@));
                        }
                        j += 1;
                    }
                    proof {
                        assert(fold.chunks.deep_view().subrange(0, j as int)
                            =~= fold.chunks.deep_view());
                    }
                },
                _ => {
                    let ghost before = out;
                    out.push(chunk);
                    proof {
                        lemma_deep_view_push(before, out, chunk);
                        assert(before.deep_view().push(chunk@) =~= before.deep_view()
                            + seq![chunk@]);
                    }
                },
            }
            i += 1;
        }
        proof {
            assert(all.subrange(0, i as int) =~= all);
        }
        out
    }

    /// The setup of the game: the first among the chunks that hold the
    /// data, or nothing where none of them is one.
    pub fn find_game_data(&self) -> (r: Option<&DATADATAChunk>)
        ensures
            match r {
                Some(data) => self@.game_data() == Some(data@),
                None => self@.game_data() is None,
            },
    {
        let chunks = self.data_chunks();
        let ghost all = chunks.deep_view();
        let mut i: usize = 0;
        proof {
            assert(all.subrange(0, all.len() as int) =~= all);
        }
        while i < chunks.len()
            invariant
                i <= chunks.len(),
                all == chunks.deep_view(),
                all == self@.data_chunks(),
                first_game_data(all) == first_game_data(all.subrange(i as int, all.len() as int)),
            decreases chunks.len() - i,
        {
            let chunk: &Chunk = chunks[i];
            let ghost left = all.subrange(i as int, all.len() as int);
            proof {
                assert(left[0] == chunk@);
                assert(left.subrange(1, left.len() as int) =~= all.subrange(
                    i + 1,
                    all.len() as int,
                ));
            }
            match chunk {
                Chunk::DATADATA(data) => {
                    return Some(data);
                },
                _ => {},
            }
            i += 1;
        }
        None
    }

    /// The description of the map: the first among the chunks that hold the
    /// data, or nothing where none of them is one.
    pub fn find_map_data(&self) -> (r: Option<&DATASDSCChunk>)
        ensures
            match r {
                Some(map) => self@.map_data() == Some(map@),
                None => self@.map_data() is None,
            },
    {
        let chunks = self.data_chunks();
        let ghost all = chunks.deep_view();
        let mut i: usize = 0;
        proof {
            assert(all.subrange(0, all.len() as int) =~= all);
        }
        while i < chunks.len()
            invariant
                i <= chunks.len(),
                all == chunks.deep_view(),
                all == self@.data_chunks(),
                first_map_data(all) == first_map_data(all.subrange(i as int, all.len() as int)),
            decreases chunks.len() - i,
        {
            let chunk: &Chunk = chunks[i];
            let ghost left = all.subrange(i as int, all.len() as int);
            proof {
                assert(left[0] == chunk@);
                assert(left.subrange(1, left.len() as int) =~= all.subrange(
                    i + 1,
                    all.len() as int,
                ));
            }
            match chunk {
                Chunk::DATASDSC(map) => {
                    return Some(map);
                },
                _ => {},
            }
            i += 1;
        }
        None
    }

    /// The setup of the game, of a match that holds one.
    pub fn game_data(&self) -> (r: &DATADATAChunk)
        requires
            self@.game_data() is Some,
        ensures
            self@.game_data() == Some(r@),
    {
        match self.find_game_data() {
            Some(data) => data,
            None => unreached(),
        }
    }

    /// The description of the map, of a match that holds one.
    pub fn map_data(&self) -> (r: &DATASDSCChunk)
        requires
            self@.map_data() is Some,
        ensures
            self@.map_data() == Some(r@),
    {
        match self.find_map_data() {
            Some(map) => map,
            None => unreached(),
        }
    }

    /// The identifier under which the match is on record, of a match that
    /// holds the setup of its game.
    pub fn matchhistory_id(&self) -> (id: u64)
        requires
            self@.game_data() is Some,
        ensures
            self@.game_data() matches Some(data) && id == data.matchhistory_id,
    {
        self.game_data().matchhistory_id
    }
}

} // verus!
