//! A tick on its own: the type of the tick and the command it carries.

use crate::error::ParseError;
use crate::parser::{
    le_u32, parsed_as, rest_of, spec_cut, spec_le_u32, spec_take_n, take_n, value_of, Fields,
    Parsed,
};
use crate::ticks::{spec_command_block, CommandTick};
use vstd::prelude::*;

verus! {

broadcast use crate::views::group_plain_deep_views;

/// A tick with a command, of whatever type.
#[derive(Debug, Clone, Copy, PartialEq, Eq)]
pub struct Tick {
    pub id: u32,
    pub tick_type: u32,
}

impl DeepView for Tick {
    type V = Tick;

    open spec fn deep_view(&self) -> Tick {
        *self
    }
}

impl View for Tick {
    type V = Tick;

    open spec fn view(&self) -> Tick {
        *self
    }
}

/// The fields of a tick: the 32-bit type, and a counted block that holds the
/// command.  The buffer goes on after the block.
pub open spec fn spec_tick_fields(s: Seq<u8>) -> Parsed<Tick> {
    let tick_type = spec_le_u32(s);
    let block = spec_take_n(rest_of(tick_type));
    let id = spec_command_block(value_of(block).1);
    Fields::none().and(tick_type).and(block).and(id).outcome(
        Tick { id: value_of(id), tick_type: value_of(tick_type) },
        rest_of(block),
    )
}

/// A tick.  It is committed from its first byte.
pub open spec fn spec_parse_tick(s: Seq<u8>) -> Parsed<Tick> {
    spec_cut(spec_tick_fields(s))
}

impl Tick {
    /// Decodes a tick of whatever type; every failure ends the decoding.
    pub fn parse_tick(input: &[u8]) -> (r: Result<(Tick, &[u8]), ParseError>)
        ensures
            parsed_as(r, spec_parse_tick(input@)),
    {
        match Self::parse_fields(input) {
            Ok(v) => Ok(v),
            Err(e) => Err(e.commit()),
        }
    }

    fn parse_fields(input: &[u8]) -> (r: Result<(Tick, &[u8]), ParseError>)
        ensures
            parsed_as(r, spec_tick_fields(input@)),
    {
        let (tick_type, r1) = le_u32(input)?;
        let ((_, block), r2) = take_n(r1)?;
        let (id, _) = CommandTick::parse_block(block)?;
        Ok((Tick { id, tick_type }, r2))
    }
}

} // verus!
