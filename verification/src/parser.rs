//! Primitive decoders: little-endian integers, exact-value checks, byte runs
//! and the fixed, counted and terminated strings of the format.
//!
//! Every decoder takes the bytes that are left and hands back what it decoded
//! together with the bytes that follow it.  What a decoder yields on a given
//! buffer is fixed by a specification function on `Seq<u8>` with the same
//! name prefixed by `spec_`.

use crate::error::{ErrorKind, ParseError};
use crate::views::{lemma_deep_view_empty, lemma_deep_view_push};
use byteorder::{ByteOrder, LittleEndian};
use vstd::prelude::*;
use vstd::slice::slice_subrange;

verus! {

broadcast use crate::views::group_plain_deep_views;

/// What a decoder yields on a buffer: the decoded value and the bytes after
/// it, or the failure.
pub type Parsed<T> = Result<(T, Seq<u8>), ParseError>;

/// The failure of a field that the buffer is too short for, met before
/// anything was recognised.
pub open spec fn incomplete() -> ParseError {
    ParseError { kind: ErrorKind::Incomplete, fatal: false }
}

/// The failure of a field whose bytes are there and are not the ones the
/// format fixes, met before anything was recognised.
pub open spec fn malformed() -> ParseError {
    ParseError { kind: ErrorKind::Malformed, fatal: false }
}

/// Commitment: the same outcome, but a failure ends the decoding.
pub open spec fn spec_cut<T>(p: Parsed<T>) -> Parsed<T> {
    match p {
        Ok(v) => Ok(v),
        Err(e) => Err(e.committed()),
    }
}

/// An executable outcome `r` is the outcome `p` of the specification.
pub open spec fn parsed_as<T: DeepView>(r: Result<(T, &[u8]), ParseError>, p: Parsed<T::V>) -> bool {
    match r {
        Ok((v, rest)) => p == Ok::<(T::V, Seq<u8>), ParseError>((v.deep_view(), rest@)),
        Err(e) => p == Err::<(T::V, Seq<u8>), ParseError>(e),
    }
}

/// The bytes of `s` from position `n` on.
pub open spec fn after(s: Seq<u8>, n: int) -> Seq<u8> {
    s.subrange(n, s.len() as int)
}

/// The number that the first two bytes of `s` spell, low byte first.
pub open spec fn le16(s: Seq<u8>) -> int
    recommends
        s.len() >= 2,
{
    s[0] as int + 0x100 * (s[1] as int)
}

/// The number that the first four bytes of `s` spell, low byte first.
pub open spec fn le32(s: Seq<u8>) -> int
    recommends
        s.len() >= 4,
{
    s[0] as int + 0x100 * (s[1] as int) + 0x1_0000 * (s[2] as int) + 0x100_0000 * (s[3] as int)
}

/// The number that the first eight bytes of `s` spell, low byte first.
pub open spec fn le64(s: Seq<u8>) -> int
    recommends
        s.len() >= 8,
{
    le32(s) + 0x1_0000_0000 * le32(s.subrange(4, 8))
}

/// A little-endian 16-bit number.
pub open spec fn spec_le_u16(s: Seq<u8>) -> Parsed<u16> {
    if s.len() >= 2 {
        Ok((le16(s) as u16, after(s, 2)))
    } else {
        Err(incomplete())
    }
}

/// A little-endian 32-bit number.
pub open spec fn spec_le_u32(s: Seq<u8>) -> Parsed<u32> {
    if s.len() >= 4 {
        Ok((le32(s) as u32, after(s, 4)))
    } else {
        Err(incomplete())
    }
}

/// A little-endian 64-bit number.
pub open spec fn spec_le_u64(s: Seq<u8>) -> Parsed<u64> {
    if s.len() >= 8 {
        Ok((le64(s) as u64, after(s, 8)))
    } else {
        Err(incomplete())
    }
}

/// `nom::number::complete::le_u16` on a byte slice.  It answers with a number
/// exactly when the slice holds two bytes or more, and the number is the one
/// that the first two bytes spell, low byte first.
#[verifier::external_body]
fn nom_le_u16(input: &[u8]) -> (r: Option<u16>)
    ensures
        r is Some <==> input@.len() >= 2,
        r matches Some(v) ==> v as int == le16(input@),
{
    match nom::number::complete::le_u16::<&[u8], nom::error::Error<&[u8]>>(input) {
        Ok((_, v)) => Some(v),
        Err(_) => None,
    }
}

/// `nom::number::complete::le_u32` on a byte slice.  It answers with a number
/// exactly when the slice holds four bytes or more, and the number is the one
/// that the first four bytes spell, low byte first.
#[verifier::external_body]
fn nom_le_u32(input: &[u8]) -> (r: Option<u32>)
    ensures
        r is Some <==> input@.len() >= 4,
        r matches Some(v) ==> v as int == le32(input@),
{
    match nom::number::complete::le_u32::<&[u8], nom::error::Error<&[u8]>>(input) {
        Ok((_, v)) => Some(v),
        Err(_) => None,
    }
}

/// `nom::number::complete::le_u64` on a byte slice.  It answers with a number
/// exactly when the slice holds eight bytes or more, and the number is the one
/// that the first eight bytes spell, low byte first.
#[verifier::external_body]
fn nom_le_u64(input: &[u8]) -> (r: Option<u64>)
    ensures
        r is Some <==> input@.len() >= 8,
        r matches Some(v) ==> v as int == le64(input@),
{
    match nom::number::complete::le_u64::<&[u8], nom::error::Error<&[u8]>>(input) {
        Ok((_, v)) => Some(v),
        Err(_) => None,
    }
}

/// Decodes a little-endian 16-bit number.
pub fn le_u16(input: &[u8]) -> (r: Result<(u16, &[u8]), ParseError>)
    ensures
        parsed_as(r, spec_le_u16(input@)),
{
    match nom_le_u16(input) {
        Some(v) => Ok((v, slice_subrange(input, 2, input.len()))),
        None => Err(ParseError { kind: ErrorKind::Incomplete, fatal: false }),
    }
}

/// Decodes a little-endian 32-bit number.
pub fn le_u32(input: &[u8]) -> (r: Result<(u32, &[u8]), ParseError>)
    ensures
        parsed_as(r, spec_le_u32(input@)),
{
    match nom_le_u32(input) {
        Some(v) => Ok((v, slice_subrange(input, 4, input.len()))),
        None => Err(ParseError { kind: ErrorKind::Incomplete, fatal: false }),
    }
}

/// Decodes a little-endian 64-bit number.
pub fn le_u64(input: &[u8]) -> (r: Result<(u64, &[u8]), ParseError>)
    ensures
        parsed_as(r, spec_le_u64(input@)),
{
    match nom_le_u64(input) {
        Some(v) => Ok((v, slice_subrange(input, 8, input.len()))),
        None => Err(ParseError { kind: ErrorKind::Incomplete, fatal: false }),
    }
}

/// The bytes that follow what was decoded; nothing where nothing was.
pub open spec fn rest_of<T>(p: Parsed<T>) -> Seq<u8> {
    match p {
        Ok((_, rest)) => rest,
        Err(_) => Seq::empty(),
    }
}

/// What was decoded.
pub open spec fn value_of<T>(p: Parsed<T>) -> T
    recommends
        p is Ok,
{
    p->Ok_0.0
}

/// The fields of a record that were tried so far, in their order: whether
/// one of them failed, and how the first that did.
pub struct Fields {
    pub failure: Option<ParseError>,
}

impl Fields {
    /// No field tried yet.
    pub open spec fn none() -> Fields {
        Fields { failure: None }
    }

    /// After these fields the outcome `p` of the next one.
    pub open spec fn and<T>(self, p: Parsed<T>) -> Fields {
        match (self.failure, p) {
            (None, Err(e)) => Fields { failure: Some(e) },
            _ => self,
        }
    }

    /// The outcome of the record: the first failure among its fields, or
    /// else the value made of them and the bytes after the last.
    pub open spec fn outcome<T>(self, value: T, rest: Seq<u8>) -> Parsed<T> {
        match self.failure {
            Some(e) => Err(e),
            None => Ok((value, rest)),
        }
    }
}

/// The outcome `p` of a list's tail with the element `x` put before it.
pub open spec fn spec_cons<T>(x: T, p: Parsed<Seq<T>>) -> Parsed<Seq<T>> {
    match p {
        Ok((xs, rest)) => Ok((seq![x] + xs, rest)),
        Err(e) => Err(e),
    }
}

/// The outcome `p` of the rest of a list with the elements `done`, which
/// were decoded before it, put before its own.
pub open spec fn seq_after<T>(done: Seq<T>, p: Parsed<Seq<T>>) -> Parsed<Seq<T>> {
    match p {
        Ok((xs, rest)) => Ok((done + xs, rest)),
        Err(e) => Err(e),
    }
}

/// With nothing decoded before it, the rest of a list is the list.
pub proof fn lemma_seq_after_start<T>(p: Parsed<Seq<T>>)
    ensures
        seq_after(Seq::empty(), p) == p,
{
    if let Ok((xs, rest)) = p {
        assert(Seq::<T>::empty() + xs =~= xs);
    }
}

/// Decoding one more element moves it from the rest of the list to the
/// elements that are done.
pub proof fn lemma_seq_after_step<T>(done: Seq<T>, x: T, p: Parsed<Seq<T>>)
    ensures
        seq_after(done, spec_cons(x, p)) == seq_after(done.push(x), p),
{
    if let Ok((xs, rest)) = p {
        assert(done + (seq![x] + xs) =~= done.push(x) + xs);
    }
}

/// Where the rest of a list is empty, the list is the elements that are done.
pub proof fn lemma_seq_after_end<T>(done: Seq<T>, rest: Seq<u8>)
    ensures
        seq_after(done, Ok((Seq::empty(), rest))) == Ok::<(Seq<T>, Seq<u8>), ParseError>(
            (done, rest),
        ),
{
    assert(done + Seq::<T>::empty() =~= done);
}

/// The first `n` bytes, and the bytes after them.
pub open spec fn spec_take(s: Seq<u8>, n: nat) -> Parsed<Seq<u8>> {
    if n <= s.len() {
        Ok((s.subrange(0, n as int), after(s, n as int)))
    } else {
        Err(incomplete())
    }
}

/// Splits off the first `n` bytes.
pub fn take<'a>(input: &'a [u8], n: usize) -> (r: Result<(&'a [u8], &'a [u8]), ParseError>)
    ensures
        parsed_as(r, spec_take(input@, n as nat)),
{
    if n <= input.len() {
        Ok((slice_subrange(input, 0, n), slice_subrange(input, n, input.len())))
    } else {
        Err(ParseError { kind: ErrorKind::Incomplete, fatal: false })
    }
}

/// The bytes `expected`, which the buffer has to begin with.
pub open spec fn spec_tag(s: Seq<u8>, expected: Seq<u8>) -> Parsed<Seq<u8>> {
    if s.len() < expected.len() {
        Err(incomplete())
    } else if s.subrange(0, expected.len() as int) != expected {
        Err(malformed())
    } else {
        Ok((expected, after(s, expected.len() as int)))
    }
}

/// Recognises the bytes `expected` at the start of the buffer.
pub fn tag<'a>(input: &'a [u8], expected: &[u8]) -> (r: Result<(&'a [u8], &'a [u8]), ParseError>)
    ensures
        parsed_as(r, spec_tag(input@, expected@)),
{
    let n = expected.len();
    if input.len() < n {
        return Err(ParseError { kind: ErrorKind::Incomplete, fatal: false });
    }
    let mut i: usize = 0;
    while i < n
        invariant
            i <= n,
            n == expected@.len(),
            n <= input@.len(),
            forall|j: int| 0 <= j < i ==> input@[j] == expected@[j],
        decreases n - i,
    {
        if input[i] != expected[i] {
            assert(input@.subrange(0, n as int)[i as int] != expected@[i as int]);
            return Err(ParseError { kind: ErrorKind::Malformed, fatal: false });
        }
        i += 1;
    }
    let taken = slice_subrange(input, 0, n);
    assert(taken@ =~= expected@);
    Ok((taken, slice_subrange(input, n, input.len())))
}

/// Whether the buffer begins with the bytes `expected`.
pub fn starts_with(input: &[u8], expected: &[u8]) -> (b: bool)
    ensures
        b == (spec_tag(input@, expected@) is Ok),
{
    tag(input, expected).is_ok()
}

/// A 16-bit number that has to be zero.
pub open spec fn spec_verify_zero_u16(s: Seq<u8>) -> Parsed<u16> {
    if s.len() < 2 {
        Err(incomplete())
    } else if le16(s) != 0 {
        Err(malformed())
    } else {
        Ok((0u16, after(s, 2)))
    }
}

/// Decodes a 16-bit number and fails as malformed unless it is zero.
pub fn verify_zero_u16(input: &[u8]) -> (r: Result<(u16, &[u8]), ParseError>)
    ensures
        parsed_as(r, spec_verify_zero_u16(input@)),
{
    let (n, rest) = le_u16(input)?;
    if n == 0 {
        Ok((n, rest))
    } else {
        Err(ParseError { kind: ErrorKind::Malformed, fatal: false })
    }
}

/// A 32-bit number that has to be `expected`.
pub open spec fn spec_verify_le_u32(s: Seq<u8>, expected: u32) -> Parsed<u32> {
    if s.len() < 4 {
        Err(incomplete())
    } else if le32(s) != expected {
        Err(malformed())
    } else {
        Ok((expected, after(s, 4)))
    }
}

/// Decodes a 32-bit number and fails as malformed unless it is `expected`.
pub fn verify_le_u32(input: &[u8], expected: u32) -> (r: Result<(u32, &[u8]), ParseError>)
    ensures
        parsed_as(r, spec_verify_le_u32(input@, expected)),
{
    let (n, rest) = le_u32(input)?;
    if n == expected {
        Ok((n, rest))
    } else {
        Err(ParseError { kind: ErrorKind::Malformed, fatal: false })
    }
}

/// Nothing may be left: bytes that remain are a malformed buffer.
pub open spec fn spec_enforce_end_of_input(s: Seq<u8>) -> Result<(), ParseError> {
    if s.len() == 0 {
        Ok(())
    } else {
        Err(malformed())
    }
}

/// Succeeds exactly on the empty buffer.
pub fn enforce_end_of_input(input: &[u8]) -> (r: Result<(), ParseError>)
    ensures
        r == spec_enforce_end_of_input(input@),
{
    if input.len() == 0 {
        Ok(())
    } else {
        Err(ParseError { kind: ErrorKind::Malformed, fatal: false })
    }
}

/// The length of the run of zero bytes that `s` begins with.
pub open spec fn zero_run(s: Seq<u8>) -> nat
    decreases s.len(),
{
    if s.len() > 0 && s[0] == 0 {
        1 + zero_run(after(s, 1))
    } else {
        0
    }
}

/// The longest run of zero bytes at the start, and the bytes after it.
pub open spec fn spec_take_zeroes(s: Seq<u8>) -> Parsed<Seq<u8>> {
    Ok((s.subrange(0, zero_run(s) as int), after(s, zero_run(s) as int)))
}

/// The run of zero bytes ends within the buffer, holds zero bytes only, and
/// is followed by a byte that is not zero or by nothing.
pub proof fn lemma_zero_run(s: Seq<u8>)
    ensures
        zero_run(s) <= s.len(),
        forall|i: int| 0 <= i < zero_run(s) ==> s[i] == 0,
        zero_run(s) < s.len() ==> s[zero_run(s) as int] != 0,
    decreases s.len(),
{
    if s.len() > 0 && s[0] == 0 {
        let t = after(s, 1);
        lemma_zero_run(t);
        assert forall|i: int| 0 <= i < zero_run(s) implies s[i] == 0 by {
            if i > 0 {
                assert(s[i] == t[i - 1]);
            }
        }
        if zero_run(s) < s.len() {
            assert(s[zero_run(s) as int] == t[zero_run(t) as int]);
        }
    }
}

/// Splits off the longest run of zero bytes at the start.  It never fails:
/// the run may be empty.
pub fn take_zeroes(input: &[u8]) -> (r: Result<(&[u8], &[u8]), ParseError>)
    ensures
        parsed_as(r, spec_take_zeroes(input@)),
        r matches Ok((zeroes, rest)) && {
            &&& zeroes@ + rest@ == input@
            &&& forall|i: int| 0 <= i < zeroes@.len() ==> zeroes@[i] == 0
            &&& rest@.len() > 0 ==> rest@[0] != 0
        },
{
    proof {
        lemma_zero_run(input@);
        let n = zero_run(input@) as int;
        assert(input@.subrange(0, n) + after(input@, n) =~= input@);
    }
    let mut i: usize = 0;
    assert(after(input@, 0) =~= input@);
    while i < input.len() && input[i] == 0
        invariant
            i <= input@.len(),
            zero_run(input@) == i + zero_run(after(input@, i as int)),
        decreases input@.len() - i,
    {
        assert(after(after(input@, i as int), 1) =~= after(input@, i + 1));
        i += 1;
    }
    Ok((slice_subrange(input, 0, i), slice_subrange(input, i, input.len())))
}

/// A 32-bit count, and the block of that many bytes that follows it.
pub open spec fn spec_take_n(s: Seq<u8>) -> Parsed<(u32, Seq<u8>)> {
    match spec_le_u32(s) {
        Ok((n, r1)) => match spec_take(r1, n as nat) {
            Ok((block, r2)) => Ok(((n, block), r2)),
            Err(e) => Err(e),
        },
        Err(e) => Err(e),
    }
}

/// Decodes a 32-bit count and splits off the block of that many bytes.
pub fn take_n<'a>(input: &'a [u8]) -> (r: Result<((u32, &'a [u8]), &'a [u8]), ParseError>)
    ensures
        parsed_as(r, spec_take_n(input@)),
{
    let (n, r1) = le_u32(input)?;
    let (block, r2) = take(r1, n as usize)?;
    Ok(((n, block), r2))
}

/// What `String::from_utf8_lossy` makes of the bytes: their text, with the
/// replacement character in place of each sequence that is not UTF-8.
pub uninterp spec fn utf8_lossy(bytes: Seq<u8>) -> Seq<char>;

/// What `String::from_utf16_lossy` makes of the code units: their text, with
/// the replacement character in place of each unpaired surrogate.
pub uninterp spec fn utf16_lossy(units: Seq<u16>) -> Seq<char>;

/// `String::from_utf8_lossy`, made an owned string.  The text depends on the
/// bytes alone; the contract gives it the name `utf8_lossy` and says no more
/// of it.
#[verifier::external_body]
pub(crate) fn string_from_utf8_lossy(bytes: &[u8]) -> (r: String)
    ensures
        r@ == utf8_lossy(bytes@),
{
    String::from_utf8_lossy(bytes).into_owned()
}

/// `String::from_utf16_lossy`.  The text depends on the code units alone; the
/// contract gives it the name `utf16_lossy` and says no more of it.
#[verifier::external_body]
fn string_from_utf16_lossy(units: &[u16]) -> (r: String)
    ensures
        r@ == utf16_lossy(units@),
{
    String::from_utf16_lossy(units)
}

/// `byteorder::LittleEndian::read_u16`, which panics on fewer than two bytes
/// and else gives the number that the first two spell, low byte first.
#[verifier::external_body]
fn read_u16_le(buf: &[u8]) -> (r: u16)
    requires
        buf@.len() >= 2,
    ensures
        r as int == le16(buf@),
{
    LittleEndian::read_u16(buf)
}

/// Text of exactly `n` bytes, decoded as 8-bit text.
pub open spec fn spec_parse_utf8_fixed(s: Seq<u8>, n: nat) -> Parsed<Seq<char>> {
    match spec_take(s, n) {
        Ok((bytes, rest)) => Ok((utf8_lossy(bytes), rest)),
        Err(e) => Err(e),
    }
}

/// Decodes exactly `len` bytes as 8-bit text.  Bytes that are no text are
/// replaced, so the only failure is a buffer that is too short.
pub fn parse_utf8_fixed(input: &[u8], len: usize) -> (r: Result<(String, &[u8]), ParseError>)
    ensures
        parsed_as(r, spec_parse_utf8_fixed(input@, len as nat)),
{
    let (bytes, rest) = take(input, len)?;
    Ok((string_from_utf8_lossy(bytes), rest))
}

/// A 32-bit count, and 8-bit text of that many bytes.
pub open spec fn spec_parse_utf8_variable(s: Seq<u8>) -> Parsed<(u32, Seq<char>)> {
    match spec_le_u32(s) {
        Ok((n, r1)) => match spec_parse_utf8_fixed(r1, n as nat) {
            Ok((text, r2)) => Ok(((n, text), r2)),
            Err(e) => Err(e),
        },
        Err(e) => Err(e),
    }
}

/// Decodes a 32-bit count and 8-bit text of that many bytes; it hands back
/// the count beside the text.
pub fn parse_utf8_variable(input: &[u8]) -> (r: Result<((u32, String), &[u8]), ParseError>)
    ensures
        parsed_as(r, spec_parse_utf8_variable(input@)),
{
    let (n, r1) = le_u32(input)?;
    let (text, r2) = parse_utf8_fixed(r1, n as usize)?;
    Ok(((n, text), r2))
}

/// Counted 8-bit text, without its count.
pub open spec fn spec_counted_utf8(s: Seq<u8>) -> Parsed<Seq<char>> {
    match spec_parse_utf8_variable(s) {
        Ok(((_, text), rest)) => Ok((text, rest)),
        Err(e) => Err(e),
    }
}

/// Decodes counted 8-bit text and drops the count.
pub fn counted_utf8(input: &[u8]) -> (r: Result<(String, &[u8]), ParseError>)
    ensures
        parsed_as(r, spec_counted_utf8(input@)),
{
    let ((_, text), rest) = parse_utf8_variable(input)?;
    Ok((text, rest))
}

/// The 16-bit numbers that the bytes of `b` spell two by two, low byte first.
pub open spec fn le16_units(b: Seq<u8>) -> Seq<u16> {
    Seq::new(b.len() / 2, |i: int| le16(after(b, 2 * i)) as u16)
}

/// `len` 16-bit code units.
pub open spec fn spec_take_u16(s: Seq<u8>, len: nat) -> Parsed<Seq<u16>> {
    if 2 * len <= s.len() {
        Ok((le16_units(s.subrange(0, 2 * len as int)), after(s, 2 * len as int)))
    } else {
        Err(incomplete())
    }
}

/// Decodes `len` little-endian 16-bit code units.
pub fn take_u16(input: &[u8], len: usize) -> (r: Result<(Vec<u16>, &[u8]), ParseError>)
    ensures
        parsed_as(r, spec_take_u16(input@, len as nat)),
{
    if len > input.len() / 2 {
        return Err(ParseError { kind: ErrorKind::Incomplete, fatal: false });
    }
    let ghost block = input@.subrange(0, 2 * len);
    let mut units: Vec<u16> = Vec::new();
    let mut i: usize = 0;
    while i < len
        invariant
            i <= len,
            2 * len <= input@.len() <= usize::MAX,
            block == input@.subrange(0, 2 * len),
            units@.len() == i,
            forall|j: int| 0 <= j < i ==> units@[j] == le16(after(block, 2 * j)) as u16,
        decreases len - i,
    {
        let unit = read_u16_le(slice_subrange(input, 2 * i, 2 * i + 2));
        units.push(unit);
        i += 1;
    }
    assert(units@ =~= le16_units(block));
    Ok((units, slice_subrange(input, 2 * len, input.len())))
}

/// Text of exactly `len` 16-bit code units.
pub open spec fn spec_parse_utf16_fixed(s: Seq<u8>, len: nat) -> Parsed<Seq<char>> {
    match spec_take_u16(s, len) {
        Ok((units, rest)) => Ok((utf16_lossy(units), rest)),
        Err(e) => Err(e),
    }
}

/// Decodes exactly `len` 16-bit code units as text.  Units that are no text
/// are replaced, so the only failure is a buffer that is too short.
pub fn parse_utf16_fixed(input: &[u8], len: usize) -> (r: Result<(String, &[u8]), ParseError>)
    ensures
        parsed_as(r, spec_parse_utf16_fixed(input@, len as nat)),
{
    let (units, rest) = take_u16(input, len)?;
    Ok((string_from_utf16_lossy(units.as_slice()), rest))
}

/// A 32-bit count, and text of that many 16-bit code units.
pub open spec fn spec_parse_utf16_variable(s: Seq<u8>) -> Parsed<(u32, Seq<char>)> {
    match spec_le_u32(s) {
        Ok((n, r1)) => match spec_parse_utf16_fixed(r1, n as nat) {
            Ok((text, r2)) => Ok(((n, text), r2)),
            Err(e) => Err(e),
        },
        Err(e) => Err(e),
    }
}

/// Decodes a 32-bit count and text of that many 16-bit code units; it hands
/// back the count beside the text.
pub fn parse_utf16_variable(input: &[u8]) -> (r: Result<((u32, String), &[u8]), ParseError>)
    ensures
        parsed_as(r, spec_parse_utf16_variable(input@)),
{
    let (n, r1) = le_u32(input)?;
    let (text, r2) = parse_utf16_fixed(r1, n as usize)?;
    Ok(((n, text), r2))
}

/// Counted text of 16-bit code units, without its count.
pub open spec fn spec_counted_utf16(s: Seq<u8>) -> Parsed<Seq<char>> {
    match spec_parse_utf16_variable(s) {
        Ok(((_, text), rest)) => Ok((text, rest)),
        Err(e) => Err(e),
    }
}

/// Decodes counted text of 16-bit code units and drops the count.
pub fn counted_utf16(input: &[u8]) -> (r: Result<(String, &[u8]), ParseError>)
    ensures
        parsed_as(r, spec_counted_utf16(input@)),
{
    let ((_, text), rest) = parse_utf16_variable(input)?;
    Ok((text, rest))
}

/// The 16-bit code units before the first one that is zero, and the bytes
/// from that zero unit on.  A buffer that ends before a zero unit is
/// incomplete.
pub open spec fn spec_units_until_zero(s: Seq<u8>) -> Parsed<Seq<u16>>
    decreases s.len(),
{
    if s.len() < 2 {
        Err(incomplete())
    } else if le16(s) == 0 {
        Ok((Seq::empty(), s))
    } else {
        spec_cons(le16(s) as u16, spec_units_until_zero(after(s, 2)))
    }
}

/// Text of 16-bit code units that a zero unit ends.
pub open spec fn spec_parse_utf16_terminated(s: Seq<u8>) -> Parsed<Seq<char>> {
    match spec_units_until_zero(s) {
        Ok((units, rest)) => Ok((utf16_lossy(units), rest)),
        Err(e) => Err(e),
    }
}

/// Decodes text of 16-bit code units up to the first unit that is zero.  The
/// zero unit is looked at and left in the buffer.
pub fn parse_utf16_terminated(input: &[u8]) -> (r: Result<(String, &[u8]), ParseError>)
    ensures
        parsed_as(r, spec_parse_utf16_terminated(input@)),
{
    let mut units: Vec<u16> = Vec::new();
    let mut cur = input;
    proof {
        lemma_seq_after_start(spec_units_until_zero(input@));
    }
    loop
        invariant
            spec_units_until_zero(input@) == seq_after(units@, spec_units_until_zero(cur@)),
        decreases cur@.len(),
    {
        match nom_le_u16(cur) {
            None => {
                return Err(ParseError { kind: ErrorKind::Incomplete, fatal: false });
            },
            Some(unit) => {
                if unit == 0 {
                    proof {
                        lemma_seq_after_end(units@, cur@);
                    }
                    return Ok((string_from_utf16_lossy(units.as_slice()), cur));
                }
                proof {
                    lemma_seq_after_step(units@, unit, spec_units_until_zero(after(cur@, 2)));
                }
                units.push(unit);
                cur = slice_subrange(cur, 2, cur.len());
            },
        }
    }
}

/// A record of the format: a value that is decoded from the start of a
/// buffer.
pub trait Record: DeepView + Sized {
    /// What decoding a record yields on a buffer.
    spec fn spec_parse(s: Seq<u8>) -> Parsed<<Self as DeepView>::V>;

    /// A record that decodes takes one byte of the buffer at least.
    proof fn lemma_takes_bytes(s: Seq<u8>)
        ensures
            Self::spec_parse(s) matches Ok((_, rest)) ==> rest.len() < s.len(),
    ;

    /// Decodes a record.
    fn parse(input: &[u8]) -> (r: Result<(Self, &[u8]), ParseError>)
        ensures
            parsed_as(r, Self::spec_parse(input@)),
    ;
}

/// `n` records, one after the other.  The first that fails is the failure
/// of them all.
pub open spec fn spec_count<T: Record>(s: Seq<u8>, n: nat) -> Parsed<Seq<<T as DeepView>::V>>
    decreases n,
{
    if n == 0 {
        Ok((Seq::empty(), s))
    } else {
        match T::spec_parse(s) {
            Ok((record, rest)) => spec_cons(record, spec_count::<T>(rest, (n - 1) as nat)),
            Err(e) => Err(e),
        }
    }
}

/// A 32-bit count, and that many records.
pub open spec fn spec_count_n<T: Record>(s: Seq<u8>) -> Parsed<(u32, Seq<<T as DeepView>::V>)> {
    match spec_le_u32(s) {
        Ok((n, r1)) => match spec_count::<T>(r1, n as nat) {
            Ok((records, r2)) => Ok(((n, records), r2)),
            Err(e) => Err(e),
        },
        Err(e) => Err(e),
    }
}

/// What holds of every record that decodes holds of each of the records
/// that decode one after the other.
pub proof fn lemma_count_all<T: Record>(
    s: Seq<u8>,
    n: nat,
    holds: spec_fn(<T as DeepView>::V) -> bool,
)
    requires
        forall|b: Seq<u8>| (#[trigger] T::spec_parse(b)) matches Ok((record, _)) ==> holds(record),
    ensures
        spec_count::<T>(s, n) matches Ok((records, _)) ==> forall|i: int|
            0 <= i < records.len() ==> holds(#[trigger] records[i]),
    decreases n,
{
    if n > 0 {
        if let Ok((record, rest)) = T::spec_parse(s) {
            lemma_count_all::<T>(rest, (n - 1) as nat, holds);
            if let Ok((records, _)) = spec_count::<T>(rest, (n - 1) as nat) {
                let all = seq![record] + records;
                assert forall|i: int| 0 <= i < all.len() implies holds(#[trigger] all[i]) by {
                    if i > 0 {
                        assert(all[i] == records[i - 1]);
                    }
                }
            }
        }
    }
}

/// What is left of a least number of records once one of them is decoded.
pub open spec fn one_less(min: nat) -> nat {
    if min == 0 {
        0
    } else {
        (min - 1) as nat
    }
}

/// Records, one after the other, `max` at most.  The list ends before the
/// place where no record is recognised; it fails where a record that is
/// recognised fails, and where it would end with fewer than `min` records.
/// A least number above the most is a malformed list.
pub open spec fn spec_many_m_n<T: Record>(s: Seq<u8>, min: nat, max: nat) -> Parsed<
    Seq<<T as DeepView>::V>,
>
    decreases max,
{
    if min > max {
        Err(malformed().committed())
    } else if max == 0 {
        Ok((Seq::empty(), s))
    } else {
        match T::spec_parse(s) {
            Ok((record, rest)) => spec_cons(
                record,
                spec_many_m_n::<T>(rest, one_less(min), (max - 1) as nat),
            ),
            Err(e) => if e.fatal || min > 0 {
                Err(e)
            } else {
                Ok((Seq::empty(), s))
            },
        }
    }
}

/// A list never holds more records than the most it may, and it takes one
/// byte of the buffer at least for each.
pub proof fn lemma_many_m_n_len<T: Record>(s: Seq<u8>, min: nat, max: nat)
    ensures
        spec_many_m_n::<T>(s, min, max) matches Ok((records, rest)) ==> {
            &&& min <= records.len() <= max
            &&& rest.len() + records.len() <= s.len()
        },
    decreases max,
{
    if min <= max && max > 0 {
        if let Ok((_, rest)) = T::spec_parse(s) {
            T::lemma_takes_bytes(s);
            lemma_many_m_n_len::<T>(rest, one_less(min), (max - 1) as nat);
        }
    }
}

/// Where every failure of a record ends the decoding, a list that decodes
/// holds as many records as it may: it cannot end early.
pub proof fn lemma_many_m_n_committed<T: Record>(s: Seq<u8>, min: nat, max: nat)
    requires
        forall|b: Seq<u8>| (#[trigger] T::spec_parse(b)) matches Err(e) ==> e.fatal,
    ensures
        spec_many_m_n::<T>(s, min, max) matches Ok((records, _)) ==> records.len() == max,
    decreases max,
{
    if min <= max && max > 0 {
        if let Ok((_, rest)) = T::spec_parse(s) {
            lemma_many_m_n_committed::<T>(rest, one_less(min), (max - 1) as nat);
        }
    }
}

/// Decodes records, one after the other, `max` at most and `min` at least,
/// up to the place where no record is recognised.
pub fn many_m_n<T: Record>(input: &[u8], min: usize, max: usize) -> (r: Result<
    (Vec<T>, &[u8]),
    ParseError,
>)
    ensures
        parsed_as(r, spec_many_m_n::<T>(input@, min as nat, max as nat)),
        r matches Ok((records, _)) ==> min <= records@.len() <= max,
{
    if min > max {
        return Err(ParseError { kind: ErrorKind::Malformed, fatal: true });
    }
    let mut records: Vec<T> = Vec::new();
    let mut cur = input;
    let mut i: usize = 0;
    let mut least: usize = min;
    proof {
        lemma_deep_view_empty(records);
        lemma_seq_after_start(spec_many_m_n::<T>(input@, min as nat, max as nat));
    }
    while i < max
        invariant
            i <= max,
            least <= max - i,
            min <= i + least,
            records@.len() == i,
            spec_many_m_n::<T>(input@, min as nat, max as nat) == seq_after(
                records.deep_view(),
                spec_many_m_n::<T>(cur@, least as nat, (max - i) as nat),
            ),
        decreases max - i,
    {
        let ghost before = records;
        match T::parse(cur) {
            Ok((record, rest)) => {
                proof {
                    lemma_seq_after_step(
                        records.deep_view(),
                        record.deep_view(),
                        spec_many_m_n::<T>(rest@, one_less(least as nat), (max - i - 1) as nat),
                    );
                }
                records.push(record);
                proof {
                    lemma_deep_view_push(before, records, record);
                }
                cur = rest;
                i += 1;
                if least > 0 {
                    least -= 1;
                }
            },
            Err(e) => {
                if e.fatal || least > 0 {
                    return Err(e);
                }
                proof {
                    lemma_seq_after_end(records.deep_view(), cur@);
                }
                return Ok((records, cur));
            },
        }
    }
    proof {
        lemma_seq_after_end(records.deep_view(), cur@);
    }
    Ok((records, cur))
}

/// Decodes `n` records, one after the other.
pub fn count<T: Record>(input: &[u8], n: usize) -> (r: Result<(Vec<T>, &[u8]), ParseError>)
    ensures
        parsed_as(r, spec_count::<T>(input@, n as nat)),
        r matches Ok((records, _)) ==> records@.len() == n,
{
    let mut records: Vec<T> = Vec::new();
    let mut cur = input;
    let mut i: usize = 0;
    proof {
        lemma_deep_view_empty(records);
        lemma_seq_after_start(spec_count::<T>(input@, n as nat));
    }
    while i < n
        invariant
            i <= n,
            records@.len() == i,
            spec_count::<T>(input@, n as nat) == seq_after(
                records.deep_view(),
                spec_count::<T>(cur@, (n - i) as nat),
            ),
        decreases n - i,
    {
        let ghost before = records;
        let (record, rest) = T::parse(cur)?;
        proof {
            lemma_seq_after_step(
                records.deep_view(),
                record.deep_view(),
                spec_count::<T>(rest@, (n - i - 1) as nat),
            );
        }
        records.push(record);
        proof {
            lemma_deep_view_push(before, records, record);
        }
        cur = rest;
        i += 1;
    }
    proof {
        lemma_seq_after_end(records.deep_view(), cur@);
    }
    Ok((records, cur))
}

/// Decodes a 32-bit count and that many records; it hands back the count
/// beside the records.
pub fn count_n<T: Record>(input: &[u8]) -> (r: Result<((u32, Vec<T>), &[u8]), ParseError>)
    ensures
        parsed_as(r, spec_count_n::<T>(input@)),
        r matches Ok(((n, records), _)) ==> records@.len() == n,
{
    let (n, r1) = le_u32(input)?;
    let (records, r2) = count::<T>(r1, n as usize)?;
    Ok(((n, records), r2))
}

} // verus!
