//! The signature that introduces each chunk container.

use crate::error::ParseError;
use crate::parser::{
    after, le32, malformed, many_m_n, parsed_as, spec_many_m_n, spec_tag, spec_verify_le_u32,
    string_from_utf8_lossy, tag, utf8_lossy, verify_le_u32, Parsed, Record,
};
use vstd::prelude::*;

verus! {

broadcast use crate::views::group_plain_deep_views;

/// The signature constant of a chunk container.
pub const CHUNKY_SIGNATURE: u32 = 0x1A0A0D;

/// The major version of the chunk containers that are understood.
pub const CHUNKY_MAJOR_VERSION: u32 = 4;

/// The minor version of the chunk containers that are understood.
pub const CHUNKY_MINOR_VERSION: u32 = 1;

/// The bytes of the text `Relic Chunky`, which a signature begins with.
pub open spec fn spec_chunky_tag() -> Seq<u8> {
    seq![0x52u8, 0x65, 0x6c, 0x69, 0x63, 0x20, 0x43, 0x68, 0x75, 0x6e, 0x6b, 0x79]
}

/// The signature of a chunk container.
#[derive(Debug, Clone, PartialEq, Eq)]
pub struct Chunky {
    /// The text of the tag.
    pub name: String,
    pub signature: u32,
    pub major_version: u32,
    pub minor_version: u32,
}

/// The model of a [`Chunky`].
pub struct ChunkyView {
    pub name: Seq<char>,
    pub signature: u32,
    pub major_version: u32,
    pub minor_version: u32,
}

impl DeepView for Chunky {
    type V = ChunkyView;

    open spec fn deep_view(&self) -> ChunkyView {
        ChunkyView {
            name: self.name@,
            signature: self.signature,
            major_version: self.major_version,
            minor_version: self.minor_version,
        }
    }
}

impl View for Chunky {
    type V = ChunkyView;

    open spec fn view(&self) -> ChunkyView {
        self.deep_view()
    }
}

/// The tag of a signature, as text.
pub open spec fn spec_parse_name(s: Seq<u8>) -> Parsed<Seq<char>> {
    match spec_tag(s, spec_chunky_tag()) {
        Ok((bytes, rest)) => Ok((utf8_lossy(bytes), rest)),
        Err(e) => Err(e),
    }
}

/// A signature: the tag, then the three constants, each of which has to be
/// the one that the format fixes.
#[verifier::opaque]
pub open spec fn spec_parse_chunky(s: Seq<u8>) -> Parsed<ChunkyView> {
    match spec_parse_name(s) {
        Ok((name, r1)) => match spec_verify_le_u32(r1, CHUNKY_SIGNATURE) {
            Ok((signature, r2)) => match spec_verify_le_u32(r2, CHUNKY_MAJOR_VERSION) {
                Ok((major_version, r3)) => match spec_verify_le_u32(r3, CHUNKY_MINOR_VERSION) {
                    Ok((minor_version, r4)) => Ok(
                        (ChunkyView { name, signature, major_version, minor_version }, r4),
                    ),
                    Err(e) => Err(e),
                },
                Err(e) => Err(e),
            },
            Err(e) => Err(e),
        },
        Err(e) => Err(e),
    }
}

/// The buffer begins with the tag of a signature and holds, where the
/// constant of the signature stands, four bytes that spell another number.
pub open spec fn signature_differs(s: Seq<u8>) -> bool {
    &&& spec_tag(s, spec_chunky_tag()) is Ok
    &&& s.len() >= 16
    &&& le32(after(s, 12)) != CHUNKY_SIGNATURE
}

/// A signature whose constant is any other than the fixed one is malformed.
pub proof fn lemma_signature_checked(s: Seq<u8>)
    requires
        signature_differs(s),
    ensures
        spec_parse_chunky(s) == Err::<(ChunkyView, Seq<u8>), ParseError>(malformed()),
{
    reveal(spec_parse_chunky);
}

/// A signature that decodes takes twenty-four bytes.
pub proof fn lemma_chunky_len(s: Seq<u8>)
    ensures
        spec_parse_chunky(s) matches Ok((_, rest)) ==> rest.len() + 24 == s.len(),
{
    reveal(spec_parse_chunky);
}

/// One signature at least, and then as many as follow.
pub open spec fn spec_parse_chunkies(s: Seq<u8>) -> Parsed<Seq<ChunkyView>> {
    spec_many_m_n::<Chunky>(s, 1, usize::MAX as nat)
}

impl Record for Chunky {
    open spec fn spec_parse(s: Seq<u8>) -> Parsed<ChunkyView> {
        spec_parse_chunky(s)
    }

    proof fn lemma_takes_bytes(s: Seq<u8>) {
        lemma_chunky_len(s);
    }

    fn parse(input: &[u8]) -> (r: Result<(Chunky, &[u8]), ParseError>) {
        Chunky::parse_chunky(input)
    }
}

impl Chunky {
    /// Decodes signatures, one after the other, up to the first place where
    /// none is recognised.  There has to be one at least.
    pub fn parse_chunkies(input: &[u8]) -> (r: Result<(Vec<Chunky>, &[u8]), ParseError>)
        ensures
            parsed_as(r, spec_parse_chunkies(input@)),
            r matches Ok((chunkies, _)) ==> chunkies@.len() >= 1,
    {
        many_m_n::<Chunky>(input, 1, usize::MAX)
    }

    /// Decodes a signature.  A tag or a constant other than the fixed one is
    /// a malformed buffer: no other container version is read.
    pub fn parse_chunky(input: &[u8]) -> (r: Result<(Chunky, &[u8]), ParseError>)
        ensures
            parsed_as(r, spec_parse_chunky(input@)),
    {
        reveal(spec_parse_chunky);
        let (name, r1) = Self::parse_name(input)?;
        let (signature, r2) = Self::parse_signature(r1)?;
        let (major_version, r3) = Self::parse_major_version(r2)?;
        let (minor_version, r4) = Self::parse_minor_version(r3)?;
        Ok((Chunky { name, signature, major_version, minor_version }, r4))
    }

    /// Recognises the tag and decodes it as text.
    pub fn parse_name(input: &[u8]) -> (r: Result<(String, &[u8]), ParseError>)
        ensures
            parsed_as(r, spec_parse_name(input@)),
    {
        let expected: [u8; 12] = [
            0x52,
            0x65,
            0x6c,
            0x69,
            0x63,
            0x20,
            0x43,
            0x68,
            0x75,
            0x6e,
            0x6b,
            0x79,
        ];
        assert(expected@ =~= spec_chunky_tag());
        let (bytes, rest) = tag(input, expected.as_slice())?;
        Ok((string_from_utf8_lossy(bytes), rest))
    }

    /// Checks the signature constant.
    pub fn parse_signature(input: &[u8]) -> (r: Result<(u32, &[u8]), ParseError>)
        ensures
            parsed_as(r, spec_verify_le_u32(input@, CHUNKY_SIGNATURE)),
    {
        verify_le_u32(input, CHUNKY_SIGNATURE)
    }

    /// Checks the major version.
    pub fn parse_major_version(input: &[u8]) -> (r: Result<(u32, &[u8]), ParseError>)
        ensures
            parsed_as(r, spec_verify_le_u32(input@, CHUNKY_MAJOR_VERSION)),
    {
        verify_le_u32(input, CHUNKY_MAJOR_VERSION)
    }

    /// Checks the minor version.
    pub fn parse_minor_version(input: &[u8]) -> (r: Result<(u32, &[u8]), ParseError>)
        ensures
            parsed_as(r, spec_verify_le_u32(input@, CHUNKY_MINOR_VERSION)),
    {
        verify_le_u32(input, CHUNKY_MINOR_VERSION)
    }
}

} // verus!
