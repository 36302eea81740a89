use vault::error::{ErrorKind, ParseError};
use vault::parser::{
    counted_utf16, counted_utf8, enforce_end_of_input, le_u16, le_u32, le_u64, parse_utf16_fixed,
    parse_utf16_terminated, parse_utf16_variable, parse_utf8_fixed, parse_utf8_variable,
    starts_with, tag, take, take_n, take_u16, take_zeroes, verify_le_u32, verify_zero_u16,
};

const INCOMPLETE: ParseError = ParseError { kind: ErrorKind::Incomplete, fatal: false };
const MALFORMED: ParseError = ParseError { kind: ErrorKind::Malformed, fatal: false };

#[test]
fn le_u16_reads_low_byte_first() {
    let input = [0x34, 0x12, 0xff];
    assert_eq!(le_u16(&input), Ok((0x1234, &input[2..])));
}

#[test]
fn le_u16_needs_two_bytes() {
    assert_eq!(le_u16(&[0x34]), Err(INCOMPLETE));
    assert_eq!(le_u16(&[]), Err(INCOMPLETE));
}

#[test]
fn le_u32_reads_low_byte_first() {
    let input = [0x00, 0x03, 0x05, 0x07, 0x61, 0x62];
    assert_eq!(le_u32(&input), Ok((0x0705_0300, &input[4..])));
}

#[test]
fn le_u32_reads_the_largest_number() {
    let input = [0xff, 0xff, 0xff, 0xff];
    assert_eq!(le_u32(&input), Ok((u32::MAX, &input[4..])));
}

#[test]
fn le_u32_needs_four_bytes() {
    assert_eq!(le_u32(&[1, 2, 3]), Err(INCOMPLETE));
}

#[test]
fn le_u64_reads_low_byte_first() {
    let input = [0x00, 0x01, 0x02, 0x03, 0x04, 0x05, 0x06, 0x07, 0x99];
    assert_eq!(le_u64(&input), Ok((0x0706_0504_0302_0100, &input[8..])));
}

#[test]
fn le_u64_needs_eight_bytes() {
    assert_eq!(le_u64(&[0; 7]), Err(INCOMPLETE));
}

#[test]
fn take_splits_the_buffer() {
    let input = [1, 2, 3, 4, 5];
    assert_eq!(take(&input, 2), Ok((&input[..2], &input[2..])));
    assert_eq!(take(&input, 0), Ok((&input[..0], &input[..])));
    assert_eq!(take(&input, 5), Ok((&input[..], &input[5..])));
}

#[test]
fn take_fails_on_a_short_buffer() {
    assert_eq!(take(&[1, 2, 3], 4), Err(INCOMPLETE));
}

#[test]
fn tag_recognises_its_bytes() {
    let input = b"DATAxyz";
    assert_eq!(tag(input, b"DATA"), Ok((&b"DATA"[..], &b"xyz"[..])));
}

#[test]
fn tag_tells_short_from_wrong() {
    assert_eq!(tag(b"DAT", b"DATA"), Err(INCOMPLETE));
    assert_eq!(tag(b"DATB", b"DATA"), Err(MALFORMED));
    assert_eq!(tag(b"XATA", b"DATA"), Err(MALFORMED));
}

#[test]
fn starts_with_compares_the_prefix() {
    assert!(starts_with(b"FOLDINFO", b"FOLD"));
    assert!(!starts_with(b"FOL", b"FOLD"));
    assert!(!starts_with(b"DATAINFO", b"FOLD"));
    assert!(starts_with(b"anything", b""));
}

#[test]
fn verify_zero_u16_accepts_zero_only() {
    let input = [0, 0, 7];
    assert_eq!(verify_zero_u16(&input), Ok((0, &input[2..])));
    assert_eq!(verify_zero_u16(&[1, 0, 7]), Err(MALFORMED));
    assert_eq!(verify_zero_u16(&[0, 1, 7]), Err(MALFORMED));
    assert_eq!(verify_zero_u16(&[0]), Err(INCOMPLETE));
}

#[test]
fn verify_le_u32_accepts_the_expected_number_only() {
    let input = [0x0d, 0x0a, 0x1a, 0x00, 0x04];
    assert_eq!(verify_le_u32(&input, 0x1a0a0d), Ok((0x1a0a0d, &input[4..])));
    assert_eq!(verify_le_u32(&input, 0x1a0a0e), Err(MALFORMED));
    assert_eq!(verify_le_u32(&input[..3], 0x1a0a0d), Err(INCOMPLETE));
}

#[test]
fn enforce_end_of_input_accepts_the_empty_buffer_only() {
    assert_eq!(enforce_end_of_input(&[]), Ok(()));
    assert_eq!(enforce_end_of_input(&[0]), Err(MALFORMED));
}

#[test]
fn take_zeroes_takes_the_whole_run() {
    let input = [0, 0, 0, 5, 0];
    assert_eq!(take_zeroes(&input), Ok((&input[..3], &input[3..])));
}

#[test]
fn take_zeroes_may_take_nothing() {
    let input = [5, 0, 0];
    assert_eq!(take_zeroes(&input), Ok((&input[..0], &input[..])));
    let empty: [u8; 0] = [];
    assert_eq!(take_zeroes(&empty), Ok((&empty[..], &empty[..])));
}

#[test]
fn take_zeroes_may_take_everything() {
    let input = [0, 0];
    assert_eq!(take_zeroes(&input), Ok((&input[..], &input[2..])));
}

#[test]
fn take_n_reads_a_counted_block() {
    let input = [3, 0, 0, 0, 9, 8, 7, 6];
    assert_eq!(take_n(&input), Ok(((3, &input[4..7]), &input[7..])));
}

#[test]
fn take_n_fails_on_a_short_block() {
    assert_eq!(take_n(&[3, 0, 0, 0, 9, 8]), Err(INCOMPLETE));
    assert_eq!(take_n(&[3, 0, 0]), Err(INCOMPLETE));
}

#[test]
fn take_n_reads_an_empty_block() {
    let input = [0, 0, 0, 0, 9];
    assert_eq!(take_n(&input), Ok(((0, &input[4..4]), &input[4..])));
}

#[test]
fn parse_utf8_fixed_decodes_text() {
    let input = b"COH__RECrest";
    assert_eq!(parse_utf8_fixed(input, 8), Ok(("COH__REC".to_string(), &b"rest"[..])));
}

#[test]
fn parse_utf8_fixed_replaces_what_is_no_text() {
    let input = [0x61, 0xff, 0x62];
    assert_eq!(parse_utf8_fixed(&input, 3), Ok(("a\u{fffd}b".to_string(), &input[3..])));
}

#[test]
fn parse_utf8_fixed_decodes_more_than_ascii() {
    let input = "züri".as_bytes();
    assert_eq!(parse_utf8_fixed(input, 5), Ok(("züri".to_string(), &input[5..])));
}

#[test]
fn parse_utf8_fixed_fails_on_a_short_buffer() {
    assert_eq!(parse_utf8_fixed(b"abc", 4), Err(INCOMPLETE));
}

#[test]
fn parse_utf8_variable_hands_back_the_count() {
    let input = [7, 0, 0, 0, b'g', b'e', b'r', b'm', b'a', b'n', b's', 1];
    assert_eq!(parse_utf8_variable(&input), Ok(((7, "germans".to_string()), &input[11..])));
}

#[test]
fn parse_utf8_variable_fails_on_a_short_text() {
    assert_eq!(parse_utf8_variable(&[7, 0, 0, 0, b'g']), Err(INCOMPLETE));
    assert_eq!(parse_utf8_variable(&[7, 0]), Err(INCOMPLETE));
}

#[test]
fn counted_utf8_drops_the_count() {
    let input = [2, 0, 0, 0, b'o', b'k'];
    assert_eq!(counted_utf8(&input), Ok(("ok".to_string(), &input[6..])));
}

#[test]
fn take_u16_reads_units_low_byte_first() {
    let input = [0x34, 0x12, 0x78, 0x56, 0x9a];
    assert_eq!(take_u16(&input, 2), Ok((vec![0x1234, 0x5678], &input[4..])));
}

#[test]
fn take_u16_reads_no_unit() {
    let input = [0x34];
    assert_eq!(take_u16(&input, 0), Ok((vec![], &input[..])));
}

#[test]
fn take_u16_fails_on_a_short_buffer() {
    assert_eq!(take_u16(&[0x34, 0x12, 0x78], 2), Err(INCOMPLETE));
}

#[test]
fn take_u16_fails_on_a_count_past_every_buffer() {
    assert_eq!(take_u16(&[0x34, 0x12], usize::MAX), Err(INCOMPLETE));
}

#[test]
fn parse_utf16_fixed_decodes_text() {
    let input = [b'h', 0, b'i', 0, 0xe9, 0x00, 7];
    assert_eq!(parse_utf16_fixed(&input, 3), Ok(("hi\u{e9}".to_string(), &input[6..])));
}

#[test]
fn parse_utf16_fixed_decodes_a_pair_of_surrogates() {
    let input = [0x3d, 0xd8, 0x00, 0xde];
    assert_eq!(parse_utf16_fixed(&input, 2), Ok(("\u{1f600}".to_string(), &input[4..])));
}

#[test]
fn parse_utf16_fixed_replaces_a_lone_surrogate() {
    let input = [0x3d, 0xd8, b'a', 0];
    assert_eq!(parse_utf16_fixed(&input, 2), Ok(("\u{fffd}a".to_string(), &input[4..])));
}

#[test]
fn parse_utf16_fixed_fails_on_a_short_buffer() {
    assert_eq!(parse_utf16_fixed(&[b'h', 0, b'i'], 2), Err(INCOMPLETE));
}

#[test]
fn parse_utf16_variable_hands_back_the_count() {
    let input = [2, 0, 0, 0, b'h', 0, b'i', 0, 9];
    assert_eq!(parse_utf16_variable(&input), Ok(((2, "hi".to_string()), &input[8..])));
}

#[test]
fn parse_utf16_variable_counts_units_not_bytes() {
    let input = [2, 0, 0, 0, b'h', 0, b'i'];
    assert_eq!(parse_utf16_variable(&input), Err(INCOMPLETE));
}

#[test]
fn counted_utf16_drops_the_count() {
    let input = [1, 0, 0, 0, b'x', 0];
    assert_eq!(counted_utf16(&input), Ok(("x".to_string(), &input[6..])));
}

#[test]
fn parse_utf16_terminated_stops_before_the_zero_unit() {
    let input = [b'2', 0, b'0', 0, 0, 0, 0, 0, b'R'];
    assert_eq!(parse_utf16_terminated(&input), Ok(("20".to_string(), &input[4..])));
}

#[test]
fn parse_utf16_terminated_may_be_empty() {
    let input = [0, 0, 1];
    assert_eq!(parse_utf16_terminated(&input), Ok((String::new(), &input[..])));
}

#[test]
fn parse_utf16_terminated_reads_units_not_bytes() {
    // The zero byte of 'a' and the low byte of the next unit are no zero unit.
    let input = [b'a', 0, 0, 1, 0, 0];
    assert_eq!(parse_utf16_terminated(&input), Ok(("a\u{100}".to_string(), &input[4..])));
}

#[test]
fn parse_utf16_terminated_needs_its_zero_unit() {
    assert_eq!(parse_utf16_terminated(&[b'a', 0, b'b', 0]), Err(INCOMPLETE));
    assert_eq!(parse_utf16_terminated(&[b'a', 0, 0]), Err(INCOMPLETE));
    assert_eq!(parse_utf16_terminated(&[]), Err(INCOMPLETE));
}

#[test]
fn commit_keeps_the_kind() {
    assert_eq!(INCOMPLETE.commit(), ParseError { kind: ErrorKind::Incomplete, fatal: true });
    assert_eq!(MALFORMED.commit(), ParseError { kind: ErrorKind::Malformed, fatal: true });
    assert_eq!(MALFORMED.commit().commit(), MALFORMED.commit());
}
