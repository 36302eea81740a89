use vault::error::{ErrorKind, ParseError};
use vault::tick::Tick as PlainTick;
use vault::ticks::{CommandTick, Message, MessageTick, Tick, Ticks};

const INCOMPLETE: ParseError = ParseError { kind: ErrorKind::Incomplete, fatal: false };
const MALFORMED: ParseError = ParseError { kind: ErrorKind::Malformed, fatal: false };
const FATAL_INCOMPLETE: ParseError = ParseError { kind: ErrorKind::Incomplete, fatal: true };
const FATAL_MALFORMED: ParseError = ParseError { kind: ErrorKind::Malformed, fatal: true };

fn text16(text: &str) -> Vec<u8> {
    let units: Vec<u16> = text.encode_utf16().collect();
    let mut out = (units.len() as u32).to_le_bytes().to_vec();
    for unit in units {
        out.extend_from_slice(&unit.to_le_bytes());
    }
    out
}

fn block(tick_type: u32, body: &[u8]) -> Vec<u8> {
    let mut out = tick_type.to_le_bytes().to_vec();
    out.extend_from_slice(&(body.len() as u32).to_le_bytes());
    out.extend_from_slice(body);
    out
}

fn command_body(id: u32) -> Vec<u8> {
    let mut out = vec![0x55];
    out.extend_from_slice(&id.to_le_bytes());
    out.extend_from_slice(&[0x66; 4]);
    out
}

fn command(id: u32) -> Vec<u8> {
    block(0, &command_body(id))
}

fn empty_batch(filler: &[u8]) -> Vec<u8> {
    let mut out = 0u32.to_le_bytes().to_vec();
    out.extend_from_slice(&(filler.len() as u32).to_le_bytes());
    out.extend_from_slice(filler);
    out
}

fn batch(count: u32, messages: &[(&str, &str)]) -> Vec<u8> {
    let mut out = count.to_le_bytes().to_vec();
    out.extend_from_slice(&[0x77; 16]);
    for (name, message) in messages {
        out.extend(text16(name));
        out.extend(text16(message));
    }
    out
}

fn message(name: &str, message: &str) -> Message {
    Message { name: name.to_string(), message: message.to_string() }
}

#[test]
fn command_tick_decodes() {
    let mut input = command(0x0a0b0c0d);
    input.extend_from_slice(b"next");
    assert_eq!(input.len(), 4 + 4 + 9 + 4);
    assert_eq!(
        CommandTick::parse_tick(&input),
        Ok((Tick::Command(CommandTick { id: 0x0a0b0c0d, tick_type: 0 }), &b"next"[..]))
    );
}

#[test]
fn command_tick_goes_on_after_its_block() {
    let mut body = command_body(3);
    body.extend_from_slice(&[0xee; 6]);
    let mut input = block(0, &body);
    input.extend_from_slice(b"next");
    assert_eq!(
        CommandTick::parse_tick(&input),
        Ok((Tick::Command(CommandTick { id: 3, tick_type: 0 }), &b"next"[..]))
    );
}

#[test]
fn command_tick_needs_a_zero() {
    let input = block(1, &command_body(3));
    assert_eq!(CommandTick::parse_tick(&input), Err(MALFORMED));
}

#[test]
fn command_tick_never_fails_for_good() {
    let input = command(3);
    for end in 0..input.len() {
        assert_eq!(CommandTick::parse_tick(&input[..end]), Err(INCOMPLETE));
    }
    // A block that is whole and too short for a command.
    assert_eq!(CommandTick::parse_tick(&block(0, &[1, 2, 3, 4, 5, 6, 7, 8])), Err(INCOMPLETE));
}

#[test]
fn command_block_decodes() {
    let input = command_body(0xdeadbeef);
    assert_eq!(CommandTick::parse_block(&input), Ok((0xdeadbeef, &input[9..])));
    assert_eq!(CommandTick::parse_block(&input[..8]), Err(INCOMPLETE));
    assert_eq!(CommandTick::parse_block(&[]), Err(INCOMPLETE));
}

#[test]
fn plain_tick_decodes_whatever_its_type() {
    let mut input = block(0x11223344, &command_body(5));
    input.extend_from_slice(b"next");
    assert_eq!(
        PlainTick::parse_tick(&input),
        Ok((PlainTick { id: 5, tick_type: 0x11223344 }, &b"next"[..]))
    );
    let input = command(6);
    assert_eq!(
        PlainTick::parse_tick(&input),
        Ok((PlainTick { id: 6, tick_type: 0 }, &input[17..]))
    );
}

#[test]
fn plain_tick_fails_for_good() {
    let input = block(7, &command_body(5));
    for end in 0..input.len() {
        assert_eq!(PlainTick::parse_tick(&input[..end]), Err(FATAL_INCOMPLETE));
    }
    assert_eq!(PlainTick::parse_tick(&block(7, &[1, 2, 3])), Err(FATAL_INCOMPLETE));
}

#[test]
fn message_decodes() {
    let mut input = text16("Ada");
    input.extend(text16("gl hf"));
    input.push(1);
    let end = input.len() - 1;
    assert_eq!(Message::parse_message(&input), Ok((message("Ada", "gl hf"), &input[end..])));
}

#[test]
fn message_fails_for_good() {
    let mut input = text16("Ada");
    input.extend(text16("gl hf"));
    for end in 0..input.len() {
        assert_eq!(Message::parse_message(&input[..end]), Err(FATAL_INCOMPLETE));
    }
}

#[test]
fn message_tick_with_a_count_of_zero_is_empty() {
    let marker = empty_batch(&[]);
    assert_eq!(marker.len(), 8);
    let mut input = block(0x20, &marker);
    input.extend_from_slice(b"next");
    assert_eq!(
        MessageTick::parse_tick(&input),
        Ok((
            Tick::Message(MessageTick { tick_type: 0x20, messages: vec![], position: -1 }),
            &b"next"[..]
        ))
    );
}

#[test]
fn empty_marker_takes_its_fixed_part_and_its_filler() {
    for filler in [0usize, 1, 5] {
        let mut input = empty_batch(&vec![0xab; filler]);
        input.extend_from_slice(b"left");
        let (messages, rest) = MessageTick::parse_empty_message(&input).unwrap();
        assert!(messages.is_empty());
        assert_eq!(input.len() - rest.len(), 8 + filler);
        assert_eq!(MessageTick::parse_message(&input), Ok((vec![], &b"left"[..])));
    }
}

#[test]
fn empty_marker_fails_for_good_on_a_short_block() {
    let input = empty_batch(&[1, 2, 3]);
    // Up to the count the block cannot be looked at; behind it the batch is committed.
    for end in 0..4 {
        assert_eq!(MessageTick::parse_message(&input[..end]), Err(INCOMPLETE));
        assert_eq!(MessageTick::parse_empty_message(&input[..end]), Err(FATAL_INCOMPLETE));
    }
    for end in 4..input.len() {
        assert_eq!(MessageTick::parse_message(&input[..end]), Err(FATAL_INCOMPLETE));
    }
}

#[test]
fn message_tick_with_content_decodes() {
    let body = batch(2, &[("Ada", "gl hf"), ("Bob", "u2")]);
    let mut input = block(0x21, &body);
    input.extend_from_slice(b"next");
    assert_eq!(
        MessageTick::parse_tick(&input),
        Ok((
            Tick::Message(MessageTick {
                tick_type: 0x21,
                messages: vec![message("Ada", "gl hf"), message("Bob", "u2")],
                position: -1
            }),
            &b"next"[..]
        ))
    );
}

#[test]
fn batch_holds_as_many_messages_as_it_counts() {
    let body = batch(3, &[("Ada", "1"), ("Bob", "2")]);
    assert_eq!(MessageTick::parse_message(&body), Err(FATAL_INCOMPLETE));
    assert_eq!(MessageTick::parse_content_message(&body, 3), Err(FATAL_INCOMPLETE));
    let (two, rest) = MessageTick::parse_content_message(&body, 2).unwrap();
    assert_eq!(two, vec![message("Ada", "1"), message("Bob", "2")]);
    assert!(rest.is_empty());
    let (one, rest) = MessageTick::parse_content_message(&body, 1).unwrap();
    assert_eq!(one, vec![message("Ada", "1")]);
    assert_eq!(rest.len(), 4 + 6 + 4 + 2);
}

#[test]
fn batch_with_content_holds_a_message() {
    let body = batch(1, &[("Ada", "1")]);
    assert_eq!(MessageTick::parse_content_message(&body, 0), Err(FATAL_MALFORMED));
}

#[test]
fn batch_fails_for_good_inside_its_header() {
    let body = batch(1, &[("Ada", "1")]);
    for end in 4..20 {
        assert_eq!(MessageTick::parse_message(&body[..end]), Err(FATAL_INCOMPLETE));
    }
}

#[test]
fn message_tick_fails_for_good_inside_its_block_only() {
    let body = batch(1, &[("Ada", "1")]);
    let input = block(0x21, &body);
    for end in 0..input.len() {
        assert_eq!(MessageTick::parse_tick(&input[..end]), Err(INCOMPLETE));
    }
    let input = block(0x21, &body[..body.len() - 1]);
    assert_eq!(MessageTick::parse_tick(&input), Err(FATAL_INCOMPLETE));
    let input = block(0x21, &body[..3]);
    assert_eq!(MessageTick::parse_tick(&input), Err(INCOMPLETE));
}

#[test]
fn tick_is_a_command_first() {
    // A zero type and a block long enough for a command: a command tick, whatever else
    // the block could be.
    let body = batch(1, &[("Ada", "1")]);
    let input = block(0, &body);
    let id = u32::from_le_bytes([body[1], body[2], body[3], body[4]]);
    assert_eq!(
        Tick::parse_tick(&input),
        Ok((Tick::Command(CommandTick { id, tick_type: 0 }), &input[input.len()..]))
    );
}

#[test]
fn tick_is_a_message_tick_where_it_is_no_command() {
    let input = block(0, &empty_batch(&[]));
    assert_eq!(
        Tick::parse_tick(&input),
        Ok((
            Tick::Message(MessageTick { tick_type: 0, messages: vec![], position: -1 }),
            &input[16..]
        ))
    );
    let input = block(9, &command_body(1));
    assert_eq!(Tick::parse_tick(&input), Err(FATAL_INCOMPLETE));
}

#[test]
fn parse_ticks_puts_each_tick_with_its_kind() {
    let mut input = Vec::new();
    input.extend(command(1));
    input.extend(block(0x30, &batch(1, &[("Ada", "first")])));
    input.extend(command(2));
    input.extend(command(3));
    input.extend(block(0x31, &empty_batch(&[])));
    input.extend(block(0x32, &batch(2, &[("Bob", "second"), ("Ada", "third")])));
    input.extend(command(4));
    let (ticks, rest) = Ticks::parse_ticks(&input).unwrap();
    assert!(rest.is_empty());
    assert_eq!(
        ticks.command_ticks,
        vec![
            CommandTick { id: 1, tick_type: 0 },
            CommandTick { id: 2, tick_type: 0 },
            CommandTick { id: 3, tick_type: 0 },
            CommandTick { id: 4, tick_type: 0 },
        ]
    );
    assert_eq!(
        ticks.message_ticks,
        vec![
            MessageTick {
                tick_type: 0x30,
                messages: vec![message("Ada", "first")],
                position: -1
            },
            MessageTick { tick_type: 0x31, messages: vec![], position: -1 },
            MessageTick {
                tick_type: 0x32,
                messages: vec![message("Bob", "second"), message("Ada", "third")],
                position: -1
            },
        ]
    );
}

#[test]
fn parse_ticks_loses_no_tick() {
    let mut input = Vec::new();
    let mut read = 0;
    for i in 0..50u32 {
        if i % 3 == 0 {
            input.extend(block(0x40 + i, &empty_batch(&[0; 2])));
        } else {
            input.extend(command(i));
        }
        read += 1;
    }
    // Decoded one by one, the stream holds as many ticks.
    let mut left = &input[..];
    let mut one_by_one = 0;
    while !left.is_empty() {
        let (_, rest) = Tick::parse_tick(left).unwrap();
        left = rest;
        one_by_one += 1;
    }
    assert_eq!(one_by_one, read);
    let (ticks, _) = Ticks::parse_ticks(&input).unwrap();
    assert_eq!(ticks.command_ticks.len() + ticks.message_ticks.len(), read);
    assert_eq!(ticks.command_ticks.len(), 33);
    assert_eq!(ticks.message_ticks.len(), 17);
}

#[test]
fn parse_ticks_accepts_the_empty_stream() {
    let (ticks, rest) = Ticks::parse_ticks(&[]).unwrap();
    assert!(ticks.command_ticks.is_empty());
    assert!(ticks.message_ticks.is_empty());
    assert!(rest.is_empty());
}

#[test]
fn parse_ticks_accepts_no_bytes_after_the_last_tick() {
    let mut input = command(1);
    input.extend_from_slice(&[0, 0, 0]);
    assert_eq!(Ticks::parse_ticks(&input), Err(INCOMPLETE));
    let mut input = command(1);
    input.extend_from_slice(&[0, 0, 0, 0, 0, 0, 0, 0]);
    assert_eq!(Ticks::parse_ticks(&input), Err(INCOMPLETE));
    let mut input = command(1);
    input.extend_from_slice(&command(2)[..16]);
    assert_eq!(Ticks::parse_ticks(&input), Err(INCOMPLETE));
}

#[test]
fn parse_ticks_fails_for_good_inside_a_batch() {
    let mut input = command(1);
    input.extend(block(0x30, &batch(2, &[("Ada", "first")])));
    input.extend(command(2));
    assert_eq!(Ticks::parse_ticks(&input), Err(FATAL_INCOMPLETE));
}
