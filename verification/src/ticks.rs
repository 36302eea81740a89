//! The stream of ticks that follows the chunks: commands and message
//! batches, interleaved, up to the very end of the buffer.

use crate::error::ParseError;
use crate::parser::{
    after, counted_utf16, le32, le_u32, lemma_many_m_n_committed, lemma_seq_after_end,
    lemma_seq_after_start, lemma_seq_after_step, many_m_n, parsed_as, rest_of, seq_after,
    spec_cons, spec_counted_utf16, spec_cut, spec_le_u32, spec_many_m_n, spec_take, spec_take_n,
    spec_verify_le_u32, take, take_n, value_of, verify_le_u32, Fields, Parsed, Record,
};
use crate::views::{lemma_deep_view_empty, lemma_deep_view_push};
use vstd::prelude::*;

verus! {

broadcast use crate::views::group_plain_deep_views;

/// The fixed part of the marker of an empty batch: the count, which is
/// zero, and the count of the filler.
pub const EMPTY_MARKER_LEN: usize = 8;

/// The fixed part before the messages of a batch: five 32-bit fields.
pub const CONTENT_HEADER_LEN: usize = 20;

/// A tick of the stream.
#[derive(Debug, Clone, PartialEq, Eq)]
pub enum Tick {
    Command(CommandTick),
    Message(MessageTick),
}

/// A tick that carries a command.
#[derive(Debug, Clone, Copy, PartialEq, Eq)]
pub struct CommandTick {
    pub id: u32,
    pub tick_type: u32,
}

/// A message: who wrote it, and what.
#[derive(Debug, Clone, PartialEq, Eq)]
pub struct Message {
    pub name: String,
    pub message: String,
}

/// A tick that carries a batch of messages.
#[derive(Debug, Clone, PartialEq, Eq)]
pub struct MessageTick {
    pub tick_type: u32,
    pub messages: Vec<Message>,
    /// Where the tick stands among the commands; -1 as long as that is not
    /// known.
    pub position: isize,
}

/// The ticks of a match, commands and message batches apart, each in the
/// order of the stream.
#[derive(Debug, Clone, PartialEq, Eq)]
pub struct Ticks {
    pub command_ticks: Vec<CommandTick>,
    pub message_ticks: Vec<MessageTick>,
}

/// The model of a [`Message`].
pub struct MessageView {
    pub name: Seq<char>,
    pub message: Seq<char>,
}

/// The model of a [`MessageTick`].
pub struct MessageTickView {
    pub tick_type: u32,
    pub messages: Seq<MessageView>,
    pub position: int,
}

/// The model of a [`Tick`].
pub enum TickView {
    Command(CommandTick),
    Message(MessageTickView),
}

/// The model of [`Ticks`].
pub struct TicksView {
    pub command_ticks: Seq<CommandTick>,
    pub message_ticks: Seq<MessageTickView>,
}

impl DeepView for CommandTick {
    type V = CommandTick;

    open spec fn deep_view(&self) -> CommandTick {
        *self
    }
}

impl View for CommandTick {
    type V = CommandTick;

    open spec fn view(&self) -> CommandTick {
        *self
    }
}

impl DeepView for Message {
    type V = MessageView;

    open spec fn deep_view(&self) -> MessageView {
        MessageView { name: self.name@, message: self.message@ }
    }
}

impl View for Message {
    type V = MessageView;

    open spec fn view(&self) -> MessageView {
        self.deep_view()
    }
}

impl DeepView for MessageTick {
    type V = MessageTickView;

    open spec fn deep_view(&self) -> MessageTickView {
        MessageTickView {
            tick_type: self.tick_type,
            messages: self.messages.deep_view(),
            position: self.position as int,
        }
    }
}

impl View for MessageTick {
    type V = MessageTickView;

    open spec fn view(&self) -> MessageTickView {
        self.deep_view()
    }
}

impl DeepView for Tick {
    type V = TickView;

    open spec fn deep_view(&self) -> TickView {
        match self {
            Tick::Command(tick) => TickView::Command(*tick),
            Tick::Message(tick) => TickView::Message(tick@),
        }
    }
}

impl View for Tick {
    type V = TickView;

    open spec fn view(&self) -> TickView {
        self.deep_view()
    }
}

impl DeepView for Ticks {
    type V = TicksView;

    open spec fn deep_view(&self) -> TicksView {
        TicksView {
            command_ticks: self.command_ticks.deep_view(),
            message_ticks: self.message_ticks.deep_view(),
        }
    }
}

impl View for Ticks {
    type V = TicksView;

    open spec fn view(&self) -> TicksView {
        self.deep_view()
    }
}

/// The block of a command: one byte, the 32-bit identifier, and four bytes.
pub open spec fn spec_command_block(s: Seq<u8>) -> Parsed<u32> {
    let pad1 = spec_take(s, 1);
    let id = spec_le_u32(rest_of(pad1));
    let pad2 = spec_take(rest_of(id), 4);
    Fields::none().and(pad1).and(id).and(pad2).outcome(value_of(id), rest_of(pad2))
}

/// A command tick: a 32-bit zero, and a counted block that holds the
/// command.  The buffer goes on after the block, whatever the command left
/// of it.  Nothing here is committed: what is no command tick may be a
/// message tick.
pub open spec fn spec_parse_command_tick(s: Seq<u8>) -> Parsed<TickView> {
    let tick_type = spec_verify_le_u32(s, 0);
    let block = spec_take_n(rest_of(tick_type));
    let id = spec_command_block(value_of(block).1);
    Fields::none().and(tick_type).and(block).and(id).outcome(
        TickView::Command(CommandTick { id: value_of(id), tick_type: value_of(tick_type) }),
        rest_of(block),
    )
}

/// A message: the name and the text, both counted text of 16-bit units.
/// It is committed from its first byte.
pub open spec fn spec_parse_message(s: Seq<u8>) -> Parsed<MessageView> {
    let name = spec_counted_utf16(s);
    let message = spec_counted_utf16(rest_of(name));
    spec_cut(
        Fields::none().and(name).and(message).outcome(
            MessageView { name: value_of(name), message: value_of(message) },
            rest_of(message),
        ),
    )
}

/// The marker of an empty batch: the count, and a counted filler.  It is
/// committed, and it holds no message.
pub open spec fn spec_parse_empty_message(s: Seq<u8>) -> Parsed<Seq<MessageView>> {
    let count = spec_le_u32(s);
    let filler = spec_take_n(rest_of(count));
    spec_cut(Fields::none().and(count).and(filler).outcome(Seq::empty(), rest_of(filler)))
}

/// A batch with content: five 32-bit fields and then the messages, one at
/// least and no more than the count that was looked at says.  It is
/// committed.
pub open spec fn spec_parse_content_message(s: Seq<u8>, num_messages: u32) -> Parsed<
    Seq<MessageView>,
> {
    spec_cut(
        match spec_take(s, CONTENT_HEADER_LEN as nat) {
            Ok((_, rest)) => spec_many_m_n::<Message>(rest, 1, num_messages as nat),
            Err(e) => Err(e),
        },
    )
}

/// Every failure of a message ends the decoding, so a batch with content
/// that decodes holds exactly as many messages as its count says.
pub proof fn lemma_batch_len(s: Seq<u8>, num_messages: u32)
    ensures
        spec_parse_content_message(s, num_messages) matches Ok((messages, _)) ==> messages.len()
            == num_messages,
{
    if let Ok((_, rest)) = spec_take(s, CONTENT_HEADER_LEN as nat) {
        lemma_many_m_n_committed::<Message>(rest, 1, num_messages as nat);
    }
}

/// The block of a message tick.  Its first 32-bit number is looked at: zero
/// marks an empty batch, any other number is the count of the messages.
pub open spec fn spec_parse_messages(s: Seq<u8>) -> Parsed<Seq<MessageView>> {
    match spec_le_u32(s) {
        Ok((num_messages, _)) => if num_messages == 0 {
            spec_parse_empty_message(s)
        } else {
            spec_parse_content_message(s, num_messages)
        },
        Err(e) => Err(e),
    }
}

/// A message tick: the 32-bit type of the tick, and a counted block that
/// holds the batch.  The buffer goes on after the block, whatever the batch
/// left of it.
pub open spec fn spec_parse_message_tick(s: Seq<u8>) -> Parsed<TickView> {
    let tick_type = spec_le_u32(s);
    let block = spec_take_n(rest_of(tick_type));
    let messages = spec_parse_messages(value_of(block).1);
    Fields::none().and(tick_type).and(block).and(messages).outcome(
        TickView::Message(
            MessageTickView {
                tick_type: value_of(tick_type),
                messages: value_of(messages),
                position: -1,
            },
        ),
        rest_of(block),
    )
}

/// A tick: a command tick, or else, where no command tick is recognised, a
/// message tick.
#[verifier::opaque]
pub open spec fn spec_parse_tick(s: Seq<u8>) -> Parsed<TickView> {
    match spec_parse_command_tick(s) {
        Ok(v) => Ok(v),
        Err(e) => if e.fatal {
            Err(e)
        } else {
            spec_parse_message_tick(s)
        },
    }
}

/// A tick that decodes takes eight bytes at least.
pub proof fn lemma_tick_moves(s: Seq<u8>)
    ensures
        spec_parse_tick(s) matches Ok((_, rest)) ==> rest.len() + 8 <= s.len(),
{
    reveal(spec_parse_tick);
}

/// The ticks of a stream, in their order, up to the end of the buffer.
/// Bytes at the end that are no tick are a failure.
pub open spec fn spec_parse_tick_sequence(s: Seq<u8>) -> Parsed<Seq<TickView>>
    decreases s.len(),
{
    if s.len() == 0 {
        Ok((Seq::empty(), s))
    } else {
        match spec_parse_tick(s) {
            Ok((tick, rest)) => {
                proof {
                    lemma_tick_moves(s);
                }
                spec_cons(tick, spec_parse_tick_sequence(rest))
            },
            Err(e) => Err(e),
        }
    }
}

/// The command ticks among the ticks, in their order.
pub open spec fn commands_of(ticks: Seq<TickView>) -> Seq<CommandTick>
    decreases ticks.len(),
{
    if ticks.len() == 0 {
        Seq::empty()
    } else {
        match ticks.last() {
            TickView::Command(tick) => commands_of(ticks.drop_last()).push(tick),
            TickView::Message(_) => commands_of(ticks.drop_last()),
        }
    }
}

/// The message ticks among the ticks, in their order.
pub open spec fn messages_of(ticks: Seq<TickView>) -> Seq<MessageTickView>
    decreases ticks.len(),
{
    if ticks.len() == 0 {
        Seq::empty()
    } else {
        match ticks.last() {
            TickView::Command(_) => messages_of(ticks.drop_last()),
            TickView::Message(tick) => messages_of(ticks.drop_last()).push(tick),
        }
    }
}

/// The ticks of a stream, commands and message batches apart.
pub open spec fn spec_parse_ticks(s: Seq<u8>) -> Parsed<TicksView> {
    match spec_parse_tick_sequence(s) {
        Ok((ticks, rest)) => Ok(
            (
                TicksView {
                    command_ticks: commands_of(ticks),
                    message_ticks: messages_of(ticks),
                },
                rest,
            ),
        ),
        Err(e) => Err(e),
    }
}

/// Every tick is a command tick or a message tick: the two kinds together
/// are as many as the ticks that were read.
pub proof fn lemma_partition_len(ticks: Seq<TickView>)
    ensures
        commands_of(ticks).len() + messages_of(ticks).len() == ticks.len(),
    decreases ticks.len(),
{
    if ticks.len() > 0 {
        lemma_partition_len(ticks.drop_last());
    }
}

/// A stream that decodes is read to the end of the buffer.
pub proof fn lemma_tick_sequence_ends(s: Seq<u8>)
    ensures
        spec_parse_tick_sequence(s) matches Ok((_, rest)) ==> rest.len() == 0,
    decreases s.len(),
{
    if s.len() > 0 {
        if let Ok((_, rest)) = spec_parse_tick(s) {
            lemma_tick_moves(s);
            lemma_tick_sequence_ends(rest);
        }
    }
}

/// A batch whose count is zero holds no message, and its marker takes the
/// eight bytes of its fixed part and the filler that it counts.
pub proof fn lemma_empty_batch(block: Seq<u8>)
    requires
        spec_le_u32(block) matches Ok((count, _)) && count == 0,
    ensures
        spec_parse_messages(block) matches Ok((messages, rest)) ==> {
            &&& messages.len() == 0
            &&& block.len() - rest.len() == EMPTY_MARKER_LEN + le32(after(block, 4))
        },
{
}

impl CommandTick {
    /// Decodes a command tick.  No failure is fatal: what is no command
    /// tick may be a message tick.
    pub fn parse_tick(input: &[u8]) -> (r: Result<(Tick, &[u8]), ParseError>)
        ensures
            parsed_as(r, spec_parse_command_tick(input@)),
            r matches Err(e) ==> !e.fatal,
    {
        let (tick_type, r1) = verify_le_u32(input, 0)?;
        let ((_, block), r2) = take_n(r1)?;
        let (id, _) = Self::parse_block(block)?;
        Ok((Tick::Command(CommandTick { id, tick_type }), r2))
    }

    /// Decodes the identifier from the block of a command: one byte, the
    /// identifier, and four bytes.
    pub fn parse_block(input: &[u8]) -> (r: Result<(u32, &[u8]), ParseError>)
        ensures
            parsed_as(r, spec_command_block(input@)),
            r matches Err(e) ==> !e.fatal,
    {
        let (_, r1) = take(input, 1)?;
        let (id, r2) = le_u32(r1)?;
        let (_, r3) = take(r2, 4)?;
        Ok((id, r3))
    }
}

impl Message {
    /// Decodes a message; every failure ends the decoding.
    pub fn parse_message(input: &[u8]) -> (r: Result<(Message, &[u8]), ParseError>)
        ensures
            parsed_as(r, spec_parse_message(input@)),
    {
        let (name, r1) = match counted_utf16(input) {
            Ok(v) => v,
            Err(e) => {
                return Err(e.commit());
            },
        };
        let (message, r2) = match counted_utf16(r1) {
            Ok(v) => v,
            Err(e) => {
                return Err(e.commit());
            },
        };
        Ok((Message { name, message }, r2))
    }
}

impl MessageTick {
    /// Decodes a message tick.  A block too short to be looked at is no
    /// fatal failure; every failure after the look ends the decoding.
    pub fn parse_tick(input: &[u8]) -> (r: Result<(Tick, &[u8]), ParseError>)
        ensures
            parsed_as(r, spec_parse_message_tick(input@)),
    {
        let (tick_type, r1) = le_u32(input)?;
        let ((_, block), r2) = take_n(r1)?;
        let (messages, _) = Self::parse_message(block)?;
        Ok((Tick::Message(MessageTick { tick_type, messages, position: -1 }), r2))
    }

    /// Decodes the batch in the block of a message tick: the first 32-bit
    /// number is looked at, and decides between the marker of an empty
    /// batch and a batch with content.
    pub fn parse_message(input: &[u8]) -> (r: Result<(Vec<Message>, &[u8]), ParseError>)
        ensures
            parsed_as(r, spec_parse_messages(input@)),
    {
        let (num_messages, _) = le_u32(input)?;
        if num_messages == 0 {
            Self::parse_empty_message(input)
        } else {
            Self::parse_content_message(input, num_messages)
        }
    }

    /// Decodes the marker of an empty batch: no message comes back.  Every
    /// failure ends the decoding.
    pub fn parse_empty_message(input: &[u8]) -> (r: Result<(Vec<Message>, &[u8]), ParseError>)
        ensures
            parsed_as(r, spec_parse_empty_message(input@)),
            r matches Ok((messages, _)) ==> messages@.len() == 0,
    {
        let (_, r1) = match le_u32(input) {
            Ok(v) => v,
            Err(e) => {
                return Err(e.commit());
            },
        };
        let (_, r2) = match take_n(r1) {
            Ok(v) => v,
            Err(e) => {
                return Err(e.commit());
            },
        };
        let messages: Vec<Message> = Vec::new();
        proof {
            lemma_deep_view_empty(messages);
        }
        Ok((messages, r2))
    }

    /// Decodes a batch with content: five 32-bit fields, then messages, one
    /// at least and `num_messages` at most.  Every failure ends the
    /// decoding, that of a message too: the batch that comes back holds
    /// `num_messages` messages.
    pub fn parse_content_message(input: &[u8], num_messages: u32) -> (r: Result<
        (Vec<Message>, &[u8]),
        ParseError,
    >)
        ensures
            parsed_as(r, spec_parse_content_message(input@, num_messages)),
            r matches Ok((messages, _)) ==> 1 <= messages@.len() == num_messages,
    {
        proof {
            lemma_batch_len(input@, num_messages);
        }
        let (_, r1) = match take(input, CONTENT_HEADER_LEN) {
            Ok(v) => v,
            Err(e) => {
                return Err(e.commit());
            },
        };
        match many_m_n::<Message>(r1, 1, num_messages as usize) {
            Ok(v) => Ok(v),
            Err(e) => Err(e.commit()),
        }
    }
}

impl Record for Message {
    open spec fn spec_parse(s: Seq<u8>) -> Parsed<MessageView> {
        spec_parse_message(s)
    }

    proof fn lemma_takes_bytes(s: Seq<u8>) {
    }

    fn parse(input: &[u8]) -> (r: Result<(Message, &[u8]), ParseError>) {
        Message::parse_message(input)
    }
}

impl Tick {
    /// Decodes a tick: a command tick, or else, where no command tick is
    /// recognised, a message tick.
    pub fn parse_tick(input: &[u8]) -> (r: Result<(Tick, &[u8]), ParseError>)
        ensures
            parsed_as(r, spec_parse_tick(input@)),
            r matches Ok((_, rest)) ==> rest@.len() + 8 <= input@.len(),
    {
        proof {
            reveal(spec_parse_tick);
            lemma_tick_moves(input@);
        }
        match CommandTick::parse_tick(input) {
            Ok(v) => Ok(v),
            Err(_) => MessageTick::parse_tick(input),
        }
    }
}

impl Ticks {
    /// Decodes the stream of ticks up to the end of the buffer and puts each
    /// tick with its kind: the commands in their order, the message batches
    /// in theirs.  Nothing is left of the buffer; bytes at its end that are
    /// no tick are a failure.
    pub fn parse_ticks(input: &[u8]) -> (r: Result<(Ticks, &[u8]), ParseError>)
        ensures
            parsed_as(r, spec_parse_ticks(input@)),
            r matches Ok((ticks, rest)) ==> {
                &&& rest@.len() == 0
                &&& spec_parse_tick_sequence(input@) matches Ok((read, _))
                &&& ticks.command_ticks@.len() + ticks.message_ticks@.len() == read.len()
            },
    {
        let mut command_ticks: Vec<CommandTick> = Vec::new();
        let mut message_ticks: Vec<MessageTick> = Vec::new();
        let mut cur = input;
        let ghost mut done: Seq<TickView> = Seq::empty();
        proof {
            lemma_deep_view_empty(command_ticks);
            lemma_deep_view_empty(message_ticks);
            lemma_seq_after_start(spec_parse_tick_sequence(input@));
        }
        loop
            invariant
                spec_parse_tick_sequence(input@) == seq_after(
                    done,
                    spec_parse_tick_sequence(cur@),
                ),
                command_ticks.deep_view() == commands_of(done),
                message_ticks.deep_view() == messages_of(done),
            decreases cur@.len(),
        {
            if cur.len() == 0 {
                proof {
                    lemma_seq_after_end(done, cur@);
                    lemma_partition_len(done);
                }
                return Ok((Ticks { command_ticks, message_ticks }, cur));
            }
            let (tick, rest) = Tick::parse_tick(cur)?;
            proof {
                lemma_seq_after_step(done, tick@, spec_parse_tick_sequence(rest@));
                assert(done.push(tick@).drop_last() =~= done);
            }
            let ghost commands_before = command_ticks;
            let ghost messages_before = message_ticks;
            match tick {
                Tick::Command(tick) => {
                    command_ticks.push(tick);
                    proof {
                        lemma_deep_view_push(commands_before, command_ticks, tick);
                    }
                },
                Tick::Message(tick) => {
                    message_ticks.push(tick);
                    proof {
                        lemma_deep_view_push(messages_before, message_ticks, tick);
                    }
                },
            }
            proof {
                done = done.push(tick@);
            }
            cur = rest;
        }
    }
}

} // verus!
