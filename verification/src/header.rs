//! The header that a recorded match begins with.

use crate::error::ParseError;
use crate::parser::{
    le_u16, parse_utf16_terminated, parse_utf8_fixed, parsed_as, spec_le_u16,
    spec_parse_utf16_terminated, spec_parse_utf8_fixed, spec_take_zeroes, spec_verify_zero_u16,
    take_zeroes, verify_zero_u16, Parsed,
};
use vstd::prelude::*;

verus! {

broadcast use crate::views::group_plain_deep_views;

/// The header of a recorded match.
#[derive(Debug, Clone, PartialEq, Eq)]
pub struct Header {
    /// The version of the format.
    pub version: u16,
    /// The eight-byte tag of the game.
    pub game_type: String,
    /// When the match was recorded, as the game wrote it.
    pub timestamp: String,
}

/// The model of a [`Header`].
pub struct HeaderView {
    pub version: u16,
    pub game_type: Seq<char>,
    pub timestamp: Seq<char>,
}

impl DeepView for Header {
    type V = HeaderView;

    open spec fn deep_view(&self) -> HeaderView {
        HeaderView { version: self.version, game_type: self.game_type@, timestamp: self.timestamp@ }
    }
}

impl View for Header {
    type V = HeaderView;

    open spec fn view(&self) -> HeaderView {
        self.deep_view()
    }
}

/// The version: a 16-bit zero, then the 16-bit version.
pub open spec fn spec_parse_version(s: Seq<u8>) -> Parsed<u16> {
    match spec_verify_zero_u16(s) {
        Ok((_, r1)) => spec_le_u16(r1),
        Err(e) => Err(e),
    }
}

/// The header: the version, the eight-byte game tag, the timestamp up to its
/// zero unit, and the zero bytes that pad it.
#[verifier::opaque]
pub open spec fn spec_parse_header(s: Seq<u8>) -> Parsed<HeaderView> {
    match spec_parse_version(s) {
        Ok((version, r1)) => match spec_parse_utf8_fixed(r1, 8) {
            Ok((game_type, r2)) => match spec_parse_utf16_terminated(r2) {
                Ok((timestamp, r3)) => match spec_take_zeroes(r3) {
                    Ok((_, r4)) => Ok((HeaderView { version, game_type, timestamp }, r4)),
                    Err(e) => Err(e),
                },
                Err(e) => Err(e),
            },
            Err(e) => Err(e),
        },
        Err(e) => Err(e),
    }
}

impl Header {
    /// Decodes the header.
    pub fn parse_header(input: &[u8]) -> (r: Result<(Header, &[u8]), ParseError>)
        ensures
            parsed_as(r, spec_parse_header(input@)),
    {
        reveal(spec_parse_header);
        let (version, r1) = Self::parse_version(input)?;
        let (game_type, r2) = Self::parse_game_type(r1)?;
        let (timestamp, r3) = Self::parse_timestamp(r2)?;
        let (_, r4) = Self::clear_zeroes(r3)?;
        Ok((Header { version, game_type, timestamp }, r4))
    }

    /// Decodes the version behind its leading zero.
    pub fn parse_version(input: &[u8]) -> (r: Result<(u16, &[u8]), ParseError>)
        ensures
            parsed_as(r, spec_parse_version(input@)),
    {
        let (_, r1) = verify_zero_u16(input)?;
        le_u16(r1)
    }

    /// Decodes the eight-byte game tag.
    pub fn parse_game_type(input: &[u8]) -> (r: Result<(String, &[u8]), ParseError>)
        ensures
            parsed_as(r, spec_parse_utf8_fixed(input@, 8)),
    {
        parse_utf8_fixed(input, 8)
    }

    /// Decodes the timestamp, which a zero unit ends.
    pub fn parse_timestamp(input: &[u8]) -> (r: Result<(String, &[u8]), ParseError>)
        ensures
            parsed_as(r, spec_parse_utf16_terminated(input@)),
    {
        parse_utf16_terminated(input)
    }

    /// Passes over the zero bytes that pad the header.
    pub fn clear_zeroes(input: &[u8]) -> (r: Result<(&[u8], &[u8]), ParseError>)
        ensures
            r is Ok,
            parsed_as(r, spec_take_zeroes(input@)),
            r matches Ok((_, rest)) ==> rest@.len() > 0 ==> rest@[0] != 0,
    {
        take_zeroes(input)
    }
}

} // verus!
