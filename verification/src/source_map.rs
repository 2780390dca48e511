//! Source maps: VLQ and base64 decoding, mapping tables and position lookup
//! in both directions, and discovery of the map URL in a script.

use std::collections::HashMap;
use vstd::prelude::*;
use vstd::string::StringSliceAdditionalSpecFns;
use vstd::utf8::{decode_utf8, encode_utf8, is_char_boundary, valid_utf8};

use crate::text::{
    chars_end_with, chars_eq, chars_of, chars_start_with, concat_str, decimal_digits,
    decimal_string, has_prefix, has_suffix, owned, split_chars, split_on, str_with_char,
    string_from_chars, trim_chars, trimmed, views_of,
};

verus! {

broadcast use vstd::std_specs::hash::group_hash_axioms;

/// Source map parsing and lookup errors.
#[derive(Debug)]
pub enum SourceMapError {
    /// Invalid source map JSON.
    InvalidJson(String),
    /// Invalid VLQ encoding.
    InvalidVlq(String),
    /// Invalid base64 encoding.
    InvalidBase64(String),
    /// Source not found.
    SourceNotFound(String),
    /// Invalid data URL.
    InvalidDataUrl(String),
    /// No mapping found for the position.
    MappingNotFound,
}

/// The text of a source map error.
pub open spec fn source_map_error_text(e: SourceMapError) -> Seq<char> {
    match e {
        SourceMapError::InvalidJson(m) => "Invalid source map JSON: "@ + m@,
        SourceMapError::InvalidVlq(m) => "Invalid VLQ encoding: "@ + m@,
        SourceMapError::InvalidBase64(m) => "Invalid base64 encoding: "@ + m@,
        SourceMapError::SourceNotFound(m) => "Source not found: "@ + m@,
        SourceMapError::InvalidDataUrl(m) => "Invalid data URL: "@ + m@,
        SourceMapError::MappingNotFound => "No mapping found for position"@,
    }
}

impl SourceMapError {
    /// The error's text.
    pub fn message(&self) -> (m: String)
        ensures
            m@ == source_map_error_text(*self),
    {
        match self {
            SourceMapError::InvalidJson(m) => concat_str("Invalid source map JSON: ", m.as_str()),
            SourceMapError::InvalidVlq(m) => concat_str("Invalid VLQ encoding: ", m.as_str()),
            SourceMapError::InvalidBase64(m) => concat_str("Invalid base64 encoding: ", m.as_str()),
            SourceMapError::SourceNotFound(m) => concat_str("Source not found: ", m.as_str()),
            SourceMapError::InvalidDataUrl(m) => concat_str("Invalid data URL: ", m.as_str()),
            SourceMapError::MappingNotFound => owned("No mapping found for position"),
        }
    }
}

/// A position in source code (0-based line and column).
#[derive(Debug, Clone, Copy, PartialEq, Eq, Structural)]
pub struct Position {
    /// Line number (0-based).
    pub line: u32,
    /// Column number (0-based).
    pub column: u32,
}

impl Position {
    /// Creates a position.
    pub fn new(line: u32, column: u32) -> (p: Self)
        ensures
            p.line == line,
            p.column == column,
    {
        Position { line, column }
    }
}

/// A mapping from a generated position to an original one.
#[derive(Debug, Clone, Copy, PartialEq, Eq, Structural)]
pub struct Mapping {
    /// Generated position.
    pub generated: Position,
    /// Original position, if the segment has one.
    pub original: Option<Position>,
    /// Index into the sources, if the segment has one.
    pub source_index: Option<usize>,
    /// Index into the names, if the segment has one.
    pub name_index: Option<usize>,
}

// ---------------------------------------------------------------------------
// Base64
// ---------------------------------------------------------------------------

/// The 6-bit value of a base64 byte (standard and URL-safe alphabets), or -1.
pub open spec fn base64_value(c: u8) -> int {
    if 65 <= c <= 90 {
        c - 65
    } else if 97 <= c <= 122 {
        c - 97 + 26
    } else if 48 <= c <= 57 {
        c - 48 + 52
    } else if c == 43 || c == 45 {
        62
    } else if c == 47 || c == 95 {
        63
    } else {
        -1
    }
}

/// ASCII whitespace as `u8::is_ascii_whitespace` defines it.
pub open spec fn is_ascii_ws(c: u8) -> bool {
    c == 32 || c == 9 || c == 10 || c == 12 || c == 13
}

/// `bs` without its trailing `=` padding bytes.
pub open spec fn strip_padding(bs: Seq<u8>) -> Seq<u8>
    decreases bs.len(),
{
    if bs.len() > 0 && bs.last() == 61 {
        strip_padding(bs.drop_last())
    } else {
        bs
    }
}

/// Decoder state: pending bits, how many of them, bytes written so far.
pub struct Base64State {
    pub buffer: u32,
    pub bits: u32,
    pub out: Seq<u8>,
}

/// One input byte through the decoder: a 6-bit value is shifted in and a
/// byte is written whenever eight bits are pending; whitespace is skipped;
/// any other byte stops decoding (`Err` holds it).
pub open spec fn base64_step(st: Base64State, c: u8) -> Result<Base64State, u8> {
    let v = base64_value(c);
    if v >= 0 {
        let buffer = (st.buffer << 6u32) | (v as u32);
        let bits = (st.bits + 6) as u32;
        if bits >= 8 {
            let rest = (bits - 8) as u32;
            Ok(
                Base64State {
                    buffer: buffer & (((1u32 << rest) - 1) as u32),
                    bits: rest,
                    out: st.out.push((buffer >> rest) as u8),
                },
            )
        } else {
            Ok(Base64State { buffer, bits, out: st.out })
        }
    } else if is_ascii_ws(c) {
        Ok(st)
    } else {
        Err(c)
    }
}

/// The decoder run over a whole byte sequence.
pub open spec fn base64_scan(bs: Seq<u8>) -> Result<Base64State, u8>
    decreases bs.len(),
{
    if bs.len() == 0 {
        Ok(Base64State { buffer: 0, bits: 0, out: Seq::empty() })
    } else {
        match base64_scan(bs.drop_last()) {
            Ok(st) => base64_step(st, bs.last()),
            Err(c) => Err(c),
        }
    }
}

/// What `decode_base64` yields for the UTF-8 bytes of its input: the decoded
/// bytes, or the first byte outside the alphabet and whitespace.
pub open spec fn base64_decoded(input: Seq<u8>) -> Result<Seq<u8>, u8> {
    match base64_scan(strip_padding(input)) {
        Ok(st) => Ok(st.out),
        Err(c) => Err(c),
    }
}

/// The character of a 6-bit value in the standard base64 alphabet.
pub open spec fn base64_char(v: int) -> u8 {
    if v < 26 {
        (65 + v) as u8
    } else if v < 52 {
        (97 + v - 26) as u8
    } else if v < 62 {
        (48 + v - 52) as u8
    } else if v == 62 {
        43u8
    } else {
        47u8
    }
}

/// The four characters of a group of three bytes.
pub open spec fn base64_group3(b0: u8, b1: u8, b2: u8) -> Seq<u8> {
    seq![
        base64_char((b0 >> 2u8) as int),
        base64_char((((b0 & 3u8) << 4u8) | (b1 >> 4u8)) as int),
        base64_char((((b1 & 15u8) << 2u8) | (b2 >> 6u8)) as int),
        base64_char((b2 & 63u8) as int),
    ]
}

/// The three characters of a final group of two bytes.
pub open spec fn base64_group2(b0: u8, b1: u8) -> Seq<u8> {
    seq![
        base64_char((b0 >> 2u8) as int),
        base64_char((((b0 & 3u8) << 4u8) | (b1 >> 4u8)) as int),
        base64_char(((b1 & 15u8) << 2u8) as int),
    ]
}

/// The two characters of a final group of one byte.
pub open spec fn base64_group1(b0: u8) -> Seq<u8> {
    seq![base64_char((b0 >> 2u8) as int), base64_char(((b0 & 3u8) << 4u8) as int)]
}

/// The standard base64 encoding of bytes, without `=` padding.
pub open spec fn base64_encode_unpadded(b: Seq<u8>) -> Seq<u8>
    decreases b.len(),
{
    if b.len() >= 3 {
        base64_group3(b[0], b[1], b[2]) + base64_encode_unpadded(b.skip(3))
    } else if b.len() == 2 {
        base64_group2(b[0], b[1])
    } else if b.len() == 1 {
        base64_group1(b[0])
    } else {
        Seq::empty()
    }
}

/// The standard base64 encoding of bytes (RFC 4648), `=` padded to a
/// multiple of four characters.
pub open spec fn base64_encode(b: Seq<u8>) -> Seq<u8> {
    let e = base64_encode_unpadded(b);
    if b.len() % 3 == 1 {
        e.push(61u8).push(61u8)
    } else if b.len() % 3 == 2 {
        e.push(61u8)
    } else {
        e
    }
}

/// The decoder run over `bs`, starting from `st`.
pub open spec fn base64_scan_from(st: Result<Base64State, u8>, bs: Seq<u8>) -> Result<Base64State, u8>
    decreases bs.len(),
{
    if bs.len() == 0 {
        st
    } else {
        match base64_scan_from(st, bs.drop_last()) {
            Ok(t) => base64_step(t, bs.last()),
            Err(c) => Err(c),
        }
    }
}

proof fn lemma_scan_from_concat(st: Result<Base64State, u8>, a: Seq<u8>, b: Seq<u8>)
    ensures
        base64_scan_from(st, a + b) == base64_scan_from(base64_scan_from(st, a), b),
    decreases b.len(),
{
    if b.len() == 0 {
        assert(a + b =~= a);
    } else {
        assert((a + b).drop_last() =~= a + b.drop_last());
        lemma_scan_from_concat(st, a, b.drop_last());
    }
}

proof fn lemma_scan_is_scan_from(bs: Seq<u8>)
    ensures
        base64_scan(bs) == base64_scan_from(Ok(Base64State { buffer: 0, bits: 0, out: Seq::empty() }), bs),
    decreases bs.len(),
{
    if bs.len() > 0 {
        lemma_scan_is_scan_from(bs.drop_last());
    }
}

/// The alphabet's characters read back as their values, and are neither
/// padding nor whitespace.
proof fn lemma_base64_char(v: int)
    requires
        0 <= v < 64,
    ensures
        base64_value(base64_char(v)) == v,
        base64_char(v) != 61,
{
}

/// One character of value `v` through the decoder.
proof fn lemma_step_char(st: Base64State, v: u32)
    requires
        v < 64,
        st.bits < 8,
    ensures
        base64_step(st, base64_char(v as int)) == (if st.bits + 6 >= 8 {
            Ok::<Base64State, u8>(
                Base64State {
                    buffer: ((st.buffer << 6u32) | v) & (((1u32 << ((st.bits + 6 - 8) as u32)) - 1) as u32),
                    bits: (st.bits + 6 - 8) as u32,
                    out: st.out.push((((st.buffer << 6u32) | v) >> ((st.bits + 6 - 8) as u32)) as u8),
                },
            )
        } else {
            Ok::<Base64State, u8>(Base64State { buffer: (st.buffer << 6u32) | v, bits: (st.bits + 6) as u32, out: st.out })
        }),
{
    lemma_base64_char(v as int);
}

proof fn lemma_group3_bits(b0: u8, b1: u8, b2: u8)
    ensures
        ({
            let w1 = (b0 >> 2u8) as u32;
            let w2 = (((b0 & 3u8) << 4u8) | (b1 >> 4u8)) as u32;
            let w3 = (((b1 & 15u8) << 2u8) | (b2 >> 6u8)) as u32;
            let w4 = (b2 & 63u8) as u32;
            let x2 = (w1 << 6u32) | w2;
            let r2 = x2 & (((1u32 << 4u32) - 1) as u32);
            let x3 = (r2 << 6u32) | w3;
            let r3 = x3 & (((1u32 << 2u32) - 1) as u32);
            let x4 = (r3 << 6u32) | w4;
            &&& w1 < 64 && w2 < 64 && w3 < 64 && w4 < 64
            &&& (0u32 << 6u32) | w1 == w1
            &&& (x2 >> 4u32) as u8 == b0
            &&& (x3 >> 2u32) as u8 == b1
            &&& (x4 >> 0u32) as u8 == b2
            &&& x4 & (((1u32 << 0u32) - 1) as u32) == 0
        }),
{
    let w1 = (b0 >> 2u8) as u32;
    let w2 = (((b0 & 3u8) << 4u8) | (b1 >> 4u8)) as u32;
    let w3 = (((b1 & 15u8) << 2u8) | (b2 >> 6u8)) as u32;
    let w4 = (b2 & 63u8) as u32;
    assert(w1 < 64 && w2 < 64 && w3 < 64 && w4 < 64 && (0u32 << 6u32) | w1 == w1) by (bit_vector)
        requires
            w1 == (b0 >> 2u8) as u32,
            w2 == (((b0 & 3u8) << 4u8) | (b1 >> 4u8)) as u32,
            w3 == (((b1 & 15u8) << 2u8) | (b2 >> 6u8)) as u32,
            w4 == (b2 & 63u8) as u32,
    ;
    let x2 = (w1 << 6u32) | w2;
    let r2 = x2 & (((1u32 << 4u32) - 1) as u32);
    let x3 = (r2 << 6u32) | w3;
    let r3 = x3 & (((1u32 << 2u32) - 1) as u32);
    let x4 = (r3 << 6u32) | w4;
    assert((x2 >> 4u32) as u8 == b0 && (x3 >> 2u32) as u8 == b1 && (x4 >> 0u32) as u8 == b2 && x4 & (((1u32
        << 0u32) - 1) as u32) == 0) by (bit_vector)
        requires
            w1 == (b0 >> 2u8) as u32,
            w2 == (((b0 & 3u8) << 4u8) | (b1 >> 4u8)) as u32,
            w3 == (((b1 & 15u8) << 2u8) | (b2 >> 6u8)) as u32,
            w4 == (b2 & 63u8) as u32,
            x2 == (w1 << 6u32) | w2,
            r2 == x2 & (((1u32 << 4u32) - 1) as u32),
            x3 == (r2 << 6u32) | w3,
            r3 == x3 & (((1u32 << 2u32) - 1) as u32),
            x4 == (r3 << 6u32) | w4,
    ;
}

proof fn lemma_scan_from_one(st: Base64State, c: u8)
    ensures
        base64_scan_from(Ok(st), seq![c]) == base64_step(st, c),
{
    reveal_with_fuel(base64_scan_from, 2);
    assert(seq![c].drop_last() =~= Seq::<u8>::empty());
}

/// Four characters of a group of three bytes write those bytes and leave
/// nothing pending.
proof fn lemma_scan_group3(st: Base64State, b0: u8, b1: u8, b2: u8)
    requires
        st.bits == 0,
        st.buffer == 0,
    ensures
        base64_scan_from(Ok(st), base64_group3(b0, b1, b2)) == Ok::<Base64State, u8>(
            Base64State { buffer: 0, bits: 0, out: st.out.push(b0).push(b1).push(b2) },
        ),
{
    lemma_group3_bits(b0, b1, b2);
    let w1 = (b0 >> 2u8) as u32;
    let w2 = (((b0 & 3u8) << 4u8) | (b1 >> 4u8)) as u32;
    let w3 = (((b1 & 15u8) << 2u8) | (b2 >> 6u8)) as u32;
    let w4 = (b2 & 63u8) as u32;
    let g = base64_group3(b0, b1, b2);
    let c1 = seq![g[0]];
    let c2 = seq![g[1]];
    let c3 = seq![g[2]];
    let c4 = seq![g[3]];
    assert(g =~= c1 + c2 + c3 + c4);
    lemma_scan_from_concat(Ok(st), c1 + c2 + c3, c4);
    lemma_scan_from_concat(Ok(st), c1 + c2, c3);
    lemma_scan_from_concat(Ok(st), c1, c2);
    lemma_step_char(st, w1);
    lemma_scan_from_one(st, g[0]);
    let s1 = Base64State { buffer: w1, bits: 6, out: st.out };
    assert(base64_scan_from(Ok(st), c1) == Ok::<Base64State, u8>(s1));
    lemma_step_char(s1, w2);
    lemma_scan_from_one(s1, g[1]);
    let x2 = (w1 << 6u32) | w2;
    let s2 = Base64State { buffer: x2 & (((1u32 << 4u32) - 1) as u32), bits: 4, out: st.out.push(b0) };
    assert(base64_scan_from(Ok(s1), c2) == Ok::<Base64State, u8>(s2));
    lemma_step_char(s2, w3);
    lemma_scan_from_one(s2, g[2]);
    let x3 = (s2.buffer << 6u32) | w3;
    let s3 = Base64State { buffer: x3 & (((1u32 << 2u32) - 1) as u32), bits: 2, out: s2.out.push(b1) };
    assert(base64_scan_from(Ok(s2), c3) == Ok::<Base64State, u8>(s3));
    lemma_step_char(s3, w4);
    lemma_scan_from_one(s3, g[3]);
}

/// Three characters of a final group of two bytes write those bytes.
proof fn lemma_scan_group2(st: Base64State, b0: u8, b1: u8)
    requires
        st.bits == 0,
        st.buffer == 0,
    ensures
        base64_scan_from(Ok(st), base64_group2(b0, b1)) matches Ok(f) && f.out == st.out.push(b0).push(b1),
{
    lemma_group3_bits(b0, b1, 0u8);
    let w1 = (b0 >> 2u8) as u32;
    let w2 = (((b0 & 3u8) << 4u8) | (b1 >> 4u8)) as u32;
    let w3 = ((b1 & 15u8) << 2u8) as u32;
    assert(w3 == (((b1 & 15u8) << 2u8) | (0u8 >> 6u8)) as u32 && w3 < 64) by (bit_vector)
        requires
            w3 == ((b1 & 15u8) << 2u8) as u32,
    ;
    let g = base64_group2(b0, b1);
    let c1 = seq![g[0]];
    let c2 = seq![g[1]];
    let c3 = seq![g[2]];
    assert(g =~= c1 + c2 + c3);
    lemma_scan_from_concat(Ok(st), c1 + c2, c3);
    lemma_scan_from_concat(Ok(st), c1, c2);
    lemma_step_char(st, w1);
    lemma_scan_from_one(st, g[0]);
    let s1 = Base64State { buffer: w1, bits: 6, out: st.out };
    assert(base64_scan_from(Ok(st), c1) == Ok::<Base64State, u8>(s1));
    lemma_step_char(s1, w2);
    lemma_scan_from_one(s1, g[1]);
    let x2 = (w1 << 6u32) | w2;
    let s2 = Base64State { buffer: x2 & (((1u32 << 4u32) - 1) as u32), bits: 4, out: st.out.push(b0) };
    assert(base64_scan_from(Ok(s1), c2) == Ok::<Base64State, u8>(s2));
    lemma_step_char(s2, w3);
    lemma_scan_from_one(s2, g[2]);
}

/// Two characters of a final group of one byte write that byte.
proof fn lemma_scan_group1(st: Base64State, b0: u8)
    requires
        st.bits == 0,
        st.buffer == 0,
    ensures
        base64_scan_from(Ok(st), base64_group1(b0)) matches Ok(f) && f.out == st.out.push(b0),
{
    lemma_group3_bits(b0, 0u8, 0u8);
    let w1 = (b0 >> 2u8) as u32;
    let w2 = ((b0 & 3u8) << 4u8) as u32;
    assert(w2 == (((b0 & 3u8) << 4u8) | (0u8 >> 4u8)) as u32 && w2 < 64) by (bit_vector)
        requires
            w2 == ((b0 & 3u8) << 4u8) as u32,
    ;
    let g = base64_group1(b0);
    let c1 = seq![g[0]];
    let c2 = seq![g[1]];
    assert(g =~= c1 + c2);
    lemma_scan_from_concat(Ok(st), c1, c2);
    lemma_step_char(st, w1);
    lemma_scan_from_one(st, g[0]);
    let s1 = Base64State { buffer: w1, bits: 6, out: st.out };
    assert(base64_scan_from(Ok(st), c1) == Ok::<Base64State, u8>(s1));
    lemma_step_char(s1, w2);
    lemma_scan_from_one(s1, g[1]);
}

/// The unpadded encoding of bytes, read from a state with nothing pending,
/// writes exactly those bytes.
proof fn lemma_scan_encoding(st: Base64State, b: Seq<u8>)
    requires
        st.bits == 0,
        st.buffer == 0,
    ensures
        base64_scan_from(Ok(st), base64_encode_unpadded(b)) matches Ok(f) && f.out == st.out + b,
    decreases b.len(),
{
    if b.len() >= 3 {
        lemma_scan_group3(st, b[0], b[1], b[2]);
        lemma_scan_from_concat(Ok(st), base64_group3(b[0], b[1], b[2]), base64_encode_unpadded(b.skip(3)));
        let st2 = Base64State { buffer: 0, bits: 0, out: st.out.push(b[0]).push(b[1]).push(b[2]) };
        lemma_scan_encoding(st2, b.skip(3));
        assert(st2.out + b.skip(3) =~= st.out + b);
    } else if b.len() == 2 {
        lemma_scan_group2(st, b[0], b[1]);
        assert(st.out.push(b[0]).push(b[1]) =~= st.out + b);
    } else if b.len() == 1 {
        lemma_scan_group1(st, b[0]);
        assert(st.out.push(b[0]) =~= st.out + b);
    } else {
        assert(st.out + b =~= st.out);
    }
}

/// The unpadded encoding never ends in padding.
proof fn lemma_encoding_ends_unpadded(b: Seq<u8>)
    ensures
        base64_encode_unpadded(b).len() == 0 || base64_encode_unpadded(b).last() != 61,
        strip_padding(base64_encode_unpadded(b)) == base64_encode_unpadded(b),
    decreases b.len(),
{
    let e = base64_encode_unpadded(b);
    if b.len() >= 3 {
        lemma_encoding_ends_unpadded(b.skip(3));
        let rest = base64_encode_unpadded(b.skip(3));
        let g = base64_group3(b[0], b[1], b[2]);
        assert(e == g + rest);
        if rest.len() > 0 {
            assert(e.last() == rest.last());
        } else {
            let x2 = b[2];
            let w4 = (x2 & 63u8) as u32;
            assert(w4 < 64) by (bit_vector)
                requires
                    w4 == (x2 & 63u8) as u32,
            ;
            lemma_base64_char(w4 as int);
            assert(e.last() == g[3]);
        }
    } else if b.len() == 2 {
        let x1 = b[1];
        let w3 = ((x1 & 15u8) << 2u8) as u32;
        assert(w3 < 64) by (bit_vector)
            requires
                w3 == ((x1 & 15u8) << 2u8) as u32,
        ;
        lemma_base64_char(w3 as int);
        assert(e.last() == base64_char(w3 as int));
    } else if b.len() == 1 {
        let x0 = b[0];
        let w2 = ((x0 & 3u8) << 4u8) as u32;
        assert(w2 < 64) by (bit_vector)
            requires
                w2 == ((x0 & 3u8) << 4u8) as u32,
        ;
        lemma_base64_char(w2 as int);
        assert(e.last() == base64_char(w2 as int));
    }
}

/// Base64 text of any bytes decodes back to them, with or without its `=`
/// padding.
pub proof fn base64_round_trip(b: Seq<u8>)
    ensures
        base64_decoded(base64_encode(b)) == Ok::<Seq<u8>, u8>(b),
        base64_decoded(base64_encode_unpadded(b)) == Ok::<Seq<u8>, u8>(b),
{
    let e = base64_encode_unpadded(b);
    lemma_encoding_ends_unpadded(b);
    let init = Base64State { buffer: 0, bits: 0, out: Seq::empty() };
    lemma_scan_encoding(init, b);
    lemma_scan_is_scan_from(e);
    assert(Seq::<u8>::empty() + b =~= b);
    assert(base64_decoded(e) == Ok::<Seq<u8>, u8>(b));
    assert(e.push(61u8).drop_last() =~= e);
    assert(e.push(61u8).push(61u8).drop_last() =~= e.push(61u8));
    assert(strip_padding(e.push(61u8)) == strip_padding(e));
    assert(strip_padding(e.push(61u8).push(61u8)) == strip_padding(e.push(61u8)));
    if b.len() % 3 == 1 {
        assert(base64_encode(b) == e.push(61u8).push(61u8));
    } else if b.len() % 3 == 2 {
        assert(base64_encode(b) == e.push(61u8));
    } else {
        assert(base64_encode(b) == e);
    }
}

/// The base64 encoding of bytes is ASCII text.
proof fn lemma_encoding_ascii(b: Seq<u8>)
    ensures
        forall|i: int| 0 <= i < base64_encode(b).len() ==> #[trigger] base64_encode(b)[i] < 128,
{
    lemma_unpadded_ascii(b);
}

proof fn lemma_unpadded_ascii(b: Seq<u8>)
    ensures
        forall|i: int|
            0 <= i < base64_encode_unpadded(b).len() ==> #[trigger] base64_encode_unpadded(b)[i] < 128,
    decreases b.len(),
{
    let e = base64_encode_unpadded(b);
    if b.len() >= 3 {
        lemma_unpadded_ascii(b.skip(3));
        let x0 = b[0];
        let x1 = b[1];
        let x2 = b[2];
        lemma_group3_bits(x0, x1, x2);
        let g = base64_group3(x0, x1, x2);
        assert(forall|i: int| 0 <= i < 4 ==> #[trigger] g[i] < 128);
        assert forall|i: int| 0 <= i < e.len() implies #[trigger] e[i] < 128 by {
            if i >= 4 {
                assert(e[i] == base64_encode_unpadded(b.skip(3))[i - 4]);
            } else {
                assert(e[i] == g[i]);
            }
        }
    } else if b.len() == 2 {
        let x0 = b[0];
        let x1 = b[1];
        lemma_group3_bits(x0, x1, 0u8);
        let w3 = ((x1 & 15u8) << 2u8) as u32;
        assert(w3 < 64) by (bit_vector)
            requires
                w3 == ((x1 & 15u8) << 2u8) as u32,
        ;
    } else if b.len() == 1 {
        let x0 = b[0];
        lemma_group3_bits(x0, 0u8, 0u8);
        let w2 = ((x0 & 3u8) << 4u8) as u32;
        assert(w2 < 64) by (bit_vector)
            requires
                w2 == ((x0 & 3u8) << 4u8) as u32,
        ;
    }
}

/// ASCII bytes read as characters.
pub open spec fn ascii_text(bs: Seq<u8>) -> Seq<char> {
    bs.map_values(|b: u8| b as char)
}

/// ASCII bytes read as characters encode back to those bytes.
proof fn lemma_ascii_text(bs: Seq<u8>)
    requires
        forall|i: int| 0 <= i < bs.len() ==> #[trigger] bs[i] < 128,
    ensures
        encode_utf8(ascii_text(bs)) == bs,
{
    broadcast use vstd::utf8::is_ascii_chars_encode_utf8;

    let t = ascii_text(bs);
    assert forall|i: int| 0 <= i < t.len() implies '\0' <= #[trigger] t[i] <= '\u{7f}' by {
        assert(bs[i] < 128);
    }
    assert(vstd::utf8::is_ascii_chars(t));
    assert forall|i: int| 0 <= i < t.len() implies encode_utf8(t)[i] == bs[i] by {
        assert(t[i] as u8 == encode_utf8(t)[i]);
    }
    assert(encode_utf8(t) =~= bs);
}

proof fn lemma_base64_bits(st: Base64State, bs: Seq<u8>)
    requires
        base64_scan(bs) == Ok::<Base64State, u8>(st),
    ensures
        st.bits < 8,
    decreases bs.len(),
{
    if bs.len() > 0 {
        let prev = base64_scan(bs.drop_last());
        lemma_base64_bits(prev->Ok_0, bs.drop_last());
    }
}

/// Once the decoder stops on a prefix, it stops the same way on the whole.
proof fn lemma_base64_stop_persists(bs: Seq<u8>, k: int)
    requires
        0 <= k <= bs.len(),
        base64_scan(bs.take(k)) is Err,
    ensures
        base64_scan(bs) == base64_scan(bs.take(k)),
    decreases bs.len() - k,
{
    if k < bs.len() {
        assert(bs.take(k + 1).drop_last() =~= bs.take(k));
        lemma_base64_stop_persists(bs, k + 1);
    } else {
        assert(bs.take(k) =~= bs);
    }
}

fn base64_digit(c: u8) -> (r: i32)
    ensures
        r == base64_value(c),
{
    if 65 <= c && c <= 90 {
        (c - 65) as i32
    } else if 97 <= c && c <= 122 {
        (c - 97 + 26) as i32
    } else if 48 <= c && c <= 57 {
        (c - 48 + 52) as i32
    } else if c == 43 || c == 45 {
        62
    } else if c == 47 || c == 95 {
        63
    } else {
        -1
    }
}

fn strip_padding_len(bs: &[u8]) -> (n: usize)
    ensures
        n <= bs@.len(),
        strip_padding(bs@) == bs@.take(n as int),
{
    let mut n = bs.len();
    assert(bs@.take(n as int) =~= bs@);
    while n > 0 && bs[n - 1] == 61
        invariant
            n <= bs@.len(),
            strip_padding(bs@) == strip_padding(bs@.take(n as int)),
        decreases n,
    {
        assert(bs@.take(n as int).drop_last() =~= bs@.take(n - 1));
        n = n - 1;
    }
    n
}

/// Decodes base64 text (standard or URL-safe alphabet, trailing `=`
/// padding dropped, ASCII whitespace skipped).
pub fn decode_base64(input: &str) -> (r: Result<Vec<u8>, SourceMapError>)
    ensures
        match base64_decoded(input.spec_bytes()) {
            Ok(out) => r matches Ok(v) && v@ == out,
            Err(c) => r matches Err(SourceMapError::InvalidBase64(m)) && m@ == "Invalid character: "@.push(
                c as char,
            ),
        },
{
    let bytes = input.as_bytes();
    let n = strip_padding_len(bytes);
    let ghost bs = bytes@.take(n as int);
    let mut output: Vec<u8> = Vec::new();
    let mut buffer: u32 = 0;
    let mut bits: u32 = 0;
    let mut i: usize = 0;
    while i < n
        invariant
            n <= bytes@.len(),
            bs == bytes@.take(n as int),
            bytes@ == input.spec_bytes(),
            strip_padding(bytes@) == bs,
            i <= n,
            base64_scan(bs.take(i as int)) == Ok::<Base64State, u8>(
                Base64State { buffer, bits, out: output@ },
            ),
        decreases n - i,
    {
        proof {
            lemma_base64_bits(Base64State { buffer, bits, out: output@ }, bs.take(i as int));
            assert(bs.take(i + 1).drop_last() =~= bs.take(i as int));
        }
        let c = bytes[i];
        let v = base64_digit(c);
        if v >= 0 {
            buffer = (buffer << 6u32) | (v as u32);
            bits = bits + 6;
            if bits >= 8 {
                bits = bits - 8;
                output.push((buffer >> bits) as u8);
                assert(1u32 << bits >= 1u32) by (bit_vector)
                    requires
                        bits < 8u32,
                ;
                buffer = buffer & ((1u32 << bits) - 1);
            }
        } else if c == 32 || c == 9 || c == 10 || c == 12 || c == 13 {
        } else {
            proof {
                assert(bs.take(i + 1).last() == c);
                assert(base64_scan(bs.take(i + 1)) == Err::<Base64State, u8>(c));
                lemma_base64_stop_persists(bs, i + 1);
                assert(bs.take(n as int) =~= bs);
            }
            let msg = str_with_char("Invalid character: ", c as char);
            return Err(SourceMapError::InvalidBase64(msg));
        }
        i = i + 1;
    }
    proof {
        assert(bs.take(n as int) =~= bs);
    }
    Ok(output)
}

// ---------------------------------------------------------------------------
// VLQ
// ---------------------------------------------------------------------------

/// The index of a character in the base64 alphabet that VLQ digits use, or -1.
pub open spec fn vlq_digit_value(c: char) -> int {
    if 'A' <= c <= 'Z' {
        c as int - 65
    } else if 'a' <= c <= 'z' {
        c as int - 97 + 26
    } else if '0' <= c <= '9' {
        c as int - 48 + 52
    } else if c == '+' {
        62
    } else if c == '/' {
        63
    } else {
        -1
    }
}

/// Decoder state: values finished so far, the value being built, and the
/// shift for its next 5-bit group.
pub struct VlqState {
    pub values: Seq<i64>,
    pub value: i64,
    pub shift: u32,
}

/// Why VLQ decoding stopped early.
pub enum VlqStop {
    /// A character outside the alphabet.
    BadChar(char),
    /// A continuation run long enough that the next group would be shifted
    /// by 64 bits or more, or a value that leaves the `i64` range: the
    /// arithmetic of the decoder is not defined there.
    Overflow,
}

/// The 5-bit group of a digit, shifted into place as an `i64`.
pub open spec fn vlq_term(d: int, shift: u32) -> i64 {
    (((d as u8) & 31u8) as i64) << shift
}

/// A finished value: the low bit is the sign, the rest the magnitude.
pub open spec fn vlq_signed(v: i64) -> int {
    if v & 1 == 1 {
        -((v >> 1u32) as int)
    } else {
        (v >> 1u32) as int
    }
}

/// One character through the VLQ decoder.
pub open spec fn vlq_step(st: VlqState, c: char) -> Result<VlqState, VlqStop> {
    let d = vlq_digit_value(c);
    if d < 0 {
        Err(VlqStop::BadChar(c))
    } else if st.shift >= 64 {
        Err(VlqStop::Overflow)
    } else {
        let sum = st.value + vlq_term(d, st.shift);
        if sum < i64::MIN || sum > i64::MAX {
            Err(VlqStop::Overflow)
        } else if d < 32 {
            Ok(
                VlqState {
                    values: st.values.push(vlq_signed(sum as i64) as i64),
                    value: 0,
                    shift: 0,
                },
            )
        } else {
            Ok(VlqState { values: st.values, value: sum as i64, shift: (st.shift + 5) as u32 })
        }
    }
}

/// The VLQ decoder run over a character sequence.
pub open spec fn vlq_scan(cs: Seq<char>) -> Result<VlqState, VlqStop>
    decreases cs.len(),
{
    if cs.len() == 0 {
        Ok(VlqState { values: Seq::empty(), value: 0, shift: 0 })
    } else {
        match vlq_scan(cs.drop_last()) {
            Ok(st) => vlq_step(st, cs.last()),
            Err(e) => Err(e),
        }
    }
}

/// The outcome of decoding one VLQ segment.
pub enum VlqOutcome {
    /// The decoded values.
    Values(Seq<i64>),
    /// A character outside the alphabet.
    BadChar(char),
    /// The segment ends inside a value.
    Incomplete,
    /// The decoder's arithmetic is not defined on this segment.
    Overflow,
}

/// What decoding a segment gives.
pub open spec fn vlq_decoded(cs: Seq<char>) -> VlqOutcome {
    match vlq_scan(cs) {
        Ok(st) => if st.shift > 0 {
            VlqOutcome::Incomplete
        } else {
            VlqOutcome::Values(st.values)
        },
        Err(VlqStop::BadChar(c)) => VlqOutcome::BadChar(c),
        Err(VlqStop::Overflow) => VlqOutcome::Overflow,
    }
}

fn vlq_digit(c: char) -> (r: i32)
    ensures
        r == vlq_digit_value(c),
{
    if 'A' <= c && c <= 'Z' {
        (c as u32 - 65) as i32
    } else if 'a' <= c && c <= 'z' {
        (c as u32 - 97 + 26) as i32
    } else if '0' <= c && c <= '9' {
        (c as u32 - 48 + 52) as i32
    } else if c == '+' {
        62
    } else if c == '/' {
        63
    } else {
        -1
    }
}

/// The result that decoding a segment promises, when its arithmetic stays
/// in range.
pub open spec fn vlq_result_ok(seg: Seq<char>, r: Result<Vec<i64>, SourceMapError>) -> bool {
    match vlq_decoded(seg) {
        VlqOutcome::Values(vs) => r matches Ok(v) && v@ == vs,
        VlqOutcome::BadChar(c) => r matches Err(SourceMapError::InvalidVlq(m)) && m@
            == "Invalid VLQ character: "@.push(c),
        VlqOutcome::Incomplete => r matches Err(SourceMapError::InvalidVlq(m)) && m@
            == "Incomplete VLQ sequence"@,
        VlqOutcome::Overflow => false,
    }
}

/// Decodes one VLQ segment; `None` where the decoder's arithmetic would
/// leave its range.
pub fn try_decode_vlq(segment: &[char]) -> (r: Option<Result<Vec<i64>, SourceMapError>>)
    ensures
        r is None <==> vlq_decoded(segment@) is Overflow,
        r matches Some(res) ==> vlq_result_ok(segment@, res),
{
    let mut result: Vec<i64> = Vec::new();
    let mut value: i64 = 0;
    let mut shift: u32 = 0;
    let mut i: usize = 0;
    while i < segment.len()
        invariant
            i <= segment@.len(),
            vlq_scan(segment@.take(i as int)) == Ok::<VlqState, VlqStop>(
                VlqState { values: result@, value, shift },
            ),
        decreases segment@.len() - i,
    {
        let c = segment[i];
        proof {
            assert(segment@.take(i + 1).drop_last() =~= segment@.take(i as int));
        }
        let d = vlq_digit(c);
        if d < 0 {
            proof {
                lemma_vlq_stop_persists(segment@, i as int + 1);
            }
            let msg = str_with_char("Invalid VLQ character: ", c);
            return Some(Err(SourceMapError::InvalidVlq(msg)));
        }
        if shift >= 64 {
            proof {
                lemma_vlq_stop_persists(segment@, i as int + 1);
            }
            return None;
        }
        let digit = d as u8;
        let term: i64 = ((digit & 31u8) as i64) << shift;
        value = match value.checked_add(term) {
            Some(v) => v,
            None => {
                proof {
                    lemma_vlq_stop_persists(segment@, i as int + 1);
                }
                return None;
            },
        };
        assert((digit & 32u8 == 0u8) == (digit < 32u8)) by (bit_vector)
            requires
                digit < 64u8,
        ;
        if digit & 32u8 == 0 {
            assert((value >> 1u32) > i64::MIN) by (bit_vector);
            let signed_value = if value & 1 == 1 {
                -(value >> 1u32)
            } else {
                value >> 1u32
            };
            result.push(signed_value);
            value = 0;
            shift = 0;
        } else {
            shift = shift + 5;
        }
        i = i + 1;
    }
    proof {
        assert(segment@.take(segment@.len() as int) =~= segment@);
    }
    if shift > 0 {
        return Some(Err(SourceMapError::InvalidVlq(owned("Incomplete VLQ sequence"))));
    }
    Some(Ok(result))
}

/// Decodes one VLQ segment into its signed values.
pub fn decode_vlq(segment: &str) -> (r: Result<Vec<i64>, SourceMapError>)
    requires
        !(vlq_decoded(segment@) is Overflow),
    ensures
        vlq_result_ok(segment@, r),
{
    let cs = chars_of(segment);
    match try_decode_vlq(cs.as_slice()) {
        Some(r) => r,
        None => {
            proof {
                assert(false);
            }
            Ok(Vec::new())
        },
    }
}

/// Once the decoder stops on a prefix, it stops the same way on the whole.
proof fn lemma_vlq_stop_persists(cs: Seq<char>, k: int)
    requires
        0 <= k <= cs.len(),
        vlq_scan(cs.take(k)) is Err,
    ensures
        vlq_scan(cs) == vlq_scan(cs.take(k)),
    decreases cs.len() - k,
{
    if k < cs.len() {
        assert(cs.take(k + 1).drop_last() =~= cs.take(k));
        lemma_vlq_stop_persists(cs, k + 1);
    } else {
        assert(cs.take(k) =~= cs);
    }
}

// ---------------------------------------------------------------------------
// Mappings
// ---------------------------------------------------------------------------

/// The running fields of the mappings decoder (kept across lines).
pub struct MappingsState {
    pub source: int,
    pub orig_line: int,
    pub orig_col: int,
    pub name: int,
    pub mappings: Seq<Mapping>,
}

/// Why decoding the mappings stopped.
pub enum MappingsStop {
    /// A segment is not valid VLQ (the outcome of decoding it).
    Vlq(VlqOutcome),
    /// A running field leaves the `i64` range, or a segment overflows.
    Overflow,
}

/// Whether an integer fits in `i64`.
pub open spec fn fits_i64(x: int) -> bool {
    i64::MIN <= x <= i64::MAX
}

/// The mapping that a decoded segment describes, given the running fields
/// after it has been applied.
pub open spec fn segment_mapping(line: int, col: int, n: int, st: MappingsState) -> Mapping {
    Mapping {
        generated: Position { line: line as u32, column: col as u32 },
        original: if n >= 4 {
            Some(Position { line: st.orig_line as u32, column: st.orig_col as u32 })
        } else {
            None
        },
        source_index: if n >= 4 {
            Some(st.source as usize)
        } else {
            None
        },
        name_index: if n >= 5 {
            Some(st.name as usize)
        } else {
            None
        },
    }
}

/// Applies the decoded values of one segment: the first is a column delta,
/// then (with four or more) source, line and column deltas, then (with
/// five) a name delta. Returns the new state and the new generated column.
pub open spec fn apply_values(st: MappingsState, line: int, gen_col: int, vs: Seq<i64>) -> Result<
    (MappingsState, int),
    MappingsStop,
> {
    if vs.len() == 0 {
        Ok((st, gen_col))
    } else {
        let col = gen_col + vs[0];
        let n = vs.len() as int;
        let source = if n >= 4 { st.source + vs[1] } else { st.source };
        let orig_line = if n >= 4 { st.orig_line + vs[2] } else { st.orig_line };
        let orig_col = if n >= 4 { st.orig_col + vs[3] } else { st.orig_col };
        let name = if n >= 5 { st.name + vs[4] } else { st.name };
        if !fits_i64(col) || !fits_i64(source) || !fits_i64(orig_line) || !fits_i64(orig_col)
            || !fits_i64(name) {
            Err(MappingsStop::Overflow)
        } else {
            let st2 = MappingsState { source, orig_line, orig_col, name, mappings: st.mappings };
            Ok(
                (
                    MappingsState {
                        mappings: st.mappings.push(segment_mapping(line, col, n, st2)),
                        ..st2
                    },
                    col,
                ),
            )
        }
    }
}

/// One segment through the decoder (empty segments are skipped).
pub open spec fn segment_step(st: MappingsState, line: int, gen_col: int, seg: Seq<char>) -> Result<
    (MappingsState, int),
    MappingsStop,
> {
    if seg.len() == 0 {
        Ok((st, gen_col))
    } else {
        match vlq_decoded(seg) {
            VlqOutcome::Values(vs) => apply_values(st, line, gen_col, vs),
            VlqOutcome::Overflow => Err(MappingsStop::Overflow),
            other => Err(MappingsStop::Vlq(other)),
        }
    }
}

/// The segments of one generated line; the generated column starts at 0.
pub open spec fn line_scan(st: MappingsState, line: int, segs: Seq<Seq<char>>) -> Result<
    (MappingsState, int),
    MappingsStop,
>
    decreases segs.len(),
{
    if segs.len() == 0 {
        Ok((st, 0))
    } else {
        match line_scan(st, line, segs.drop_last()) {
            Ok((st2, col)) => segment_step(st2, line, col, segs.last()),
            Err(e) => Err(e),
        }
    }
}

/// All generated lines, in order.
pub open spec fn lines_scan(lines: Seq<Seq<char>>) -> Result<MappingsState, MappingsStop>
    decreases lines.len(),
{
    if lines.len() == 0 {
        Ok(MappingsState { source: 0, orig_line: 0, orig_col: 0, name: 0, mappings: Seq::empty() })
    } else {
        match lines_scan(lines.drop_last()) {
            Ok(st) => match line_scan(st, lines.len() - 1, split_on(lines.last(), ',')) {
                Ok((st2, _)) => Ok(st2),
                Err(e) => Err(e),
            },
            Err(e) => Err(e),
        }
    }
}

/// What the mappings string decodes to: lines separated by `;`, segments
/// by `,`, each segment VLQ-encoded with deltas.
pub open spec fn mappings_decoded(s: Seq<char>) -> Result<Seq<Mapping>, MappingsStop> {
    match lines_scan(split_on(s, ';')) {
        Ok(st) => Ok(st.mappings),
        Err(e) => Err(e),
    }
}

/// The message of the error that a stopped decoding reports.
pub open spec fn vlq_error_message(stop: MappingsStop) -> Seq<char> {
    match stop {
        MappingsStop::Vlq(VlqOutcome::BadChar(c)) => "Invalid VLQ character: "@.push(c),
        _ => "Incomplete VLQ sequence"@,
    }
}

/// Whether decoding the mappings string would leave the decoder's
/// arithmetic.
pub open spec fn mappings_overflow(s: Seq<char>) -> bool {
    mappings_decoded(s) matches Err(MappingsStop::Overflow)
}

proof fn lemma_line_scan_stop_persists(st: MappingsState, line: int, segs: Seq<Seq<char>>, k: int)
    requires
        0 <= k <= segs.len(),
        line_scan(st, line, segs.take(k)) is Err,
    ensures
        line_scan(st, line, segs) == line_scan(st, line, segs.take(k)),
    decreases segs.len() - k,
{
    if k < segs.len() {
        assert(segs.take(k + 1).drop_last() =~= segs.take(k));
        lemma_line_scan_stop_persists(st, line, segs, k + 1);
    } else {
        assert(segs.take(k) =~= segs);
    }
}

proof fn lemma_lines_scan_stop_persists(lines: Seq<Seq<char>>, k: int)
    requires
        0 <= k <= lines.len(),
        lines_scan(lines.take(k)) is Err,
    ensures
        lines_scan(lines) == lines_scan(lines.take(k)),
    decreases lines.len() - k,
{
    if k < lines.len() {
        assert(lines.take(k + 1).drop_last() =~= lines.take(k));
        lemma_lines_scan_stop_persists(lines, k + 1);
    } else {
        assert(lines.take(k) =~= lines);
    }
}

/// The result that decoding the mappings promises, when the arithmetic
/// stays in range.
pub open spec fn mappings_result_ok(s: Seq<char>, r: Result<Vec<Mapping>, SourceMapError>) -> bool {
    match mappings_decoded(s) {
        Ok(ms) => r matches Ok(v) && v@ == ms,
        Err(stop) => r matches Err(SourceMapError::InvalidVlq(m)) && m@ == vlq_error_message(stop),
    }
}

/// Decodes the VLQ mappings of a source map; `None` where the decoder's
/// arithmetic would leave its range.
pub fn try_parse_vlq_mappings(mappings: &str) -> (r: Option<Result<Vec<Mapping>, SourceMapError>>)
    ensures
        r is None <==> mappings_overflow(mappings@),
        r matches Some(res) ==> mappings_result_ok(mappings@, res),
{
    let cs = chars_of(mappings);
    let lines = split_chars(cs.as_slice(), ';');
    let ghost line_views = views_of(lines@);
    let mut result: Vec<Mapping> = Vec::new();
    let mut prev_source: i64 = 0;
    let mut prev_orig_line: i64 = 0;
    let mut prev_orig_col: i64 = 0;
    let mut prev_name: i64 = 0;
    let mut gen_line: usize = 0;
    proof {
        assert(line_views.take(0) =~= Seq::<Seq<char>>::empty());
    }
    while gen_line < lines.len()
        invariant
            line_views == views_of(lines@),
            line_views == split_on(mappings@, ';'),
            gen_line <= lines@.len(),
            lines_scan(line_views.take(gen_line as int)) == Ok::<MappingsState, MappingsStop>(
                MappingsState {
                    source: prev_source as int,
                    orig_line: prev_orig_line as int,
                    orig_col: prev_orig_col as int,
                    name: prev_name as int,
                    mappings: result@,
                },
            ),
        decreases lines@.len() - gen_line,
    {
        let ghost line_start = MappingsState {
            source: prev_source as int,
            orig_line: prev_orig_line as int,
            orig_col: prev_orig_col as int,
            name: prev_name as int,
            mappings: result@,
        };
        let segments = split_chars(lines[gen_line].as_slice(), ',');
        let ghost seg_views = views_of(segments@);
        let ghost line_no = gen_line as int;
        proof {
            assert(line_views.take(gen_line + 1).drop_last() =~= line_views.take(gen_line as int));
            assert(line_views.take(gen_line + 1).last() == lines@[gen_line as int]@);
        }
        let mut prev_gen_col: i64 = 0;
        let mut j: usize = 0;
        proof {
            assert(seg_views.take(0) =~= Seq::<Seq<char>>::empty());
        }
        while j < segments.len()
            invariant
                line_views == views_of(lines@),
                line_views == split_on(mappings@, ';'),
                gen_line < lines@.len(),
                line_no == gen_line,
                seg_views == views_of(segments@),
                seg_views == split_on(lines@[gen_line as int]@, ','),
                j <= segments@.len(),
                    lines_scan(line_views.take(gen_line as int)) == Ok::<MappingsState, MappingsStop>(
                    line_start,
                ),
                line_views.take(gen_line + 1).drop_last() == line_views.take(gen_line as int),
                line_views.take(gen_line + 1).last() == lines@[gen_line as int]@,
                line_scan(line_start, line_no, seg_views.take(j as int)) == Ok::<
                    (MappingsState, int),
                    MappingsStop,
                >(
                    (
                        MappingsState {
                            source: prev_source as int,
                            orig_line: prev_orig_line as int,
                            orig_col: prev_orig_col as int,
                            name: prev_name as int,
                            mappings: result@,
                        },
                        prev_gen_col as int,
                    ),
                ),
            decreases segments@.len() - j,
        {
            let ghost cur = MappingsState {
                source: prev_source as int,
                orig_line: prev_orig_line as int,
                orig_col: prev_orig_col as int,
                name: prev_name as int,
                mappings: result@,
            };
            proof {
                assert(seg_views.take(j + 1).drop_last() =~= seg_views.take(j as int));
                assert(seg_views.take(j + 1).last() == segments@[j as int]@);
            }
            // Whatever this segment does, a stop here is a stop of the whole.
            proof {
                if line_scan(line_start, line_no, seg_views.take(j + 1)) is Err {
                    lemma_line_scan_stop_persists(line_start, line_no, seg_views, j + 1);
                    assert(split_on(line_views.take(gen_line + 1).last(), ',') == seg_views);
                    assert(lines_scan(line_views.take(gen_line + 1)) == Err::<
                        MappingsState,
                        MappingsStop,
                    >(line_scan(line_start, line_no, seg_views.take(j + 1))->Err_0));
                    lemma_lines_scan_stop_persists(line_views, gen_line + 1);
                    assert(line_views.take(line_views.len() as int) =~= line_views);
                }
            }
            let seg = &segments[j];
            if seg.len() > 0 {
                let values = match try_decode_vlq(seg.as_slice()) {
                    Some(Ok(v)) => v,
                    Some(Err(e)) => {
                        return Some(Err(e));
                    },
                    None => {
                        return None;
                    },
                };
                if values.len() > 0 {
                    prev_gen_col = match prev_gen_col.checked_add(values[0]) {
                        Some(v) => v,
                        None => {
                            return None;
                        },
                    };
                    let mut mapping = Mapping {
                        generated: Position::new(gen_line as u32, prev_gen_col as u32),
                        original: None,
                        source_index: None,
                        name_index: None,
                    };
                    if values.len() >= 4 {
                        prev_source = match prev_source.checked_add(values[1]) {
                            Some(v) => v,
                            None => {
                                return None;
                            },
                        };
                        mapping.source_index = Some(prev_source as usize);
                        prev_orig_line = match prev_orig_line.checked_add(values[2]) {
                            Some(v) => v,
                            None => {
                                return None;
                            },
                        };
                        prev_orig_col = match prev_orig_col.checked_add(values[3]) {
                            Some(v) => v,
                            None => {
                                return None;
                            },
                        };
                        mapping.original = Some(
                            Position::new(prev_orig_line as u32, prev_orig_col as u32),
                        );
                        if values.len() >= 5 {
                            prev_name = match prev_name.checked_add(values[4]) {
                                Some(v) => v,
                                None => {
                                    return None;
                                },
                            };
                            mapping.name_index = Some(prev_name as usize);
                        }
                    }
                    result.push(mapping);
                }
            }
            j = j + 1;
        }
        proof {
            assert(seg_views.take(seg_views.len() as int) =~= seg_views);
        }
        gen_line = gen_line + 1;
    }
    proof {
        assert(line_views.take(line_views.len() as int) =~= line_views);
    }
    Some(Ok(result))
}

/// Decodes the VLQ mappings of a source map.
pub fn parse_vlq_mappings(mappings: &str) -> (r: Result<Vec<Mapping>, SourceMapError>)
    requires
        !mappings_overflow(mappings@),
    ensures
        mappings_result_ok(mappings@, r),
{
    match try_parse_vlq_mappings(mappings) {
        Some(r) => r,
        None => {
            proof {
                assert(false);
            }
            Ok(Vec::new())
        },
    }
}

/// Whether a mappings string decodes without leaving the decoder's
/// arithmetic (callers check this before `parse_vlq_mappings`).
pub fn mappings_fit(mappings: &str) -> (b: bool)
    ensures
        b == !mappings_overflow(mappings@),
{
    try_parse_vlq_mappings(mappings).is_some()
}


// ---------------------------------------------------------------------------
// Column tables
// ---------------------------------------------------------------------------

/// `(column, mapping index)` pairs ordered by column, then by index.
pub open spec fn entry_lt(x: (u32, usize), y: (u32, usize)) -> bool {
    x.0 < y.0 || (x.0 == y.0 && x.1 < y.1)
}

/// A table strictly ordered by column, then by mapping index.
pub open spec fn table_sorted(v: Seq<(u32, usize)>) -> bool {
    forall|a: int, b: int| 0 <= a < b < v.len() ==> #[trigger] entry_lt(v[a], v[b])
}

/// A table ordered by column alone (ties in any order).
pub open spec fn columns_sorted(v: Seq<(u32, usize)>) -> bool {
    forall|a: int, b: int| 0 <= a <= b < v.len() ==> v[a].0 <= v[b].0
}

/// The number of entries whose column is at most `target`.
pub open spec fn count_at_or_before(v: Seq<(u32, usize)>, target: u32) -> nat
    decreases v.len(),
{
    if v.len() == 0 {
        0
    } else {
        count_at_or_before(v.drop_last(), target) + if v.last().0 <= target {
            1nat
        } else {
            0nat
        }
    }
}

/// What the closest-entry search answers on a column-sorted table: the
/// last entry whose column does not exceed the target, or none when every
/// column exceeds it.
pub open spec fn closest_entry(v: Seq<(u32, usize)>, target: u32) -> Option<usize> {
    let p = count_at_or_before(v, target);
    if p > 0 {
        Some(v[p - 1].1)
    } else {
        None
    }
}

proof fn lemma_count_split(v: Seq<(u32, usize)>, target: u32, p: int)
    requires
        0 <= p <= v.len(),
        forall|a: int| 0 <= a < p ==> v[a].0 <= target,
        forall|a: int| p <= a < v.len() ==> v[a].0 > target,
    ensures
        count_at_or_before(v, target) == p,
    decreases v.len(),
{
    if v.len() > 0 {
        if p == v.len() {
            lemma_count_split(v.drop_last(), target, p - 1);
        } else {
            lemma_count_split(v.drop_last(), target, p);
        }
    }
}

/// Finds the entry with the largest column not exceeding `target_column`
/// (none when every column exceeds it) by binary search.
pub fn find_closest_mapping(columns: &[(u32, usize)], target_column: u32) -> (r: Option<usize>)
    requires
        columns_sorted(columns@),
    ensures
        r == closest_entry(columns@, target_column),
        r is Some ==> 0 <= count_at_or_before(columns@, target_column) <= columns@.len(),
{
    let mut left: usize = 0;
    let mut right: usize = columns.len();
    while left < right
        invariant
            left <= right <= columns@.len(),
            columns_sorted(columns@),
            forall|a: int| 0 <= a < left ==> columns@[a].0 <= target_column,
            forall|a: int| right <= a < columns@.len() ==> columns@[a].0 > target_column,
        decreases right - left,
    {
        let mid = left + (right - left) / 2;
        if columns[mid].0 <= target_column {
            left = mid + 1;
        } else {
            right = mid;
        }
    }
    proof {
        lemma_count_split(columns@, target_column, left as int);
    }
    if left > 0 {
        Some(columns[left - 1].1)
    } else {
        None
    }
}

/// Inserts `(col, idx)` after every entry whose column is at most `col`;
/// with `idx` above every index present, the table stays sorted.
fn insert_entry(v: &mut Vec<(u32, usize)>, col: u32, idx: usize) -> (pos: usize)
    requires
        table_sorted(old(v)@),
        forall|a: int| 0 <= a < old(v)@.len() ==> old(v)@[a].1 < idx,
    ensures
        table_sorted(final(v)@),
        pos <= old(v)@.len(),
        final(v)@ == old(v)@.insert(pos as int, (col, idx)),
{
    let ghost old_v = v@;
    proof {
        lemma_table_columns_sorted(old_v);
    }
    let pos = upper_bound(v.as_slice(), col);
    v.insert(pos, (col, idx));
    proof {
        assert forall|a: int, b: int| 0 <= a < b < v@.len() implies #[trigger] entry_lt(
            v@[a],
            v@[b],
        ) by {
            if b < pos {
                assert(entry_lt(old_v[a], old_v[b]));
            } else if b == pos {
                assert(old_v[a].0 <= col);
            } else if a < pos {
                assert(v@[a] == old_v[a]);
                assert(v@[b] == old_v[b - 1]);
                assert(old_v[b - 1].0 > col);
            } else if a == pos {
                assert(v@[b] == old_v[b - 1]);
                assert(old_v[b - 1].0 > col);
            } else {
                assert(entry_lt(old_v[a - 1], old_v[b - 1]));
            }
        }
    }
    pos
}

/// The number of leading entries whose column is at most `col` in a
/// column-sorted table.
fn upper_bound(v: &[(u32, usize)], col: u32) -> (pos: usize)
    requires
        columns_sorted(v@),
    ensures
        pos <= v@.len(),
        forall|a: int| 0 <= a < pos ==> v@[a].0 <= col,
        forall|a: int| pos <= a < v@.len() ==> v@[a].0 > col,
{
    let mut left: usize = 0;
    let mut right: usize = v.len();
    while left < right
        invariant
            left <= right <= v@.len(),
            columns_sorted(v@),
            forall|a: int| 0 <= a < left ==> v@[a].0 <= col,
            forall|a: int| right <= a < v@.len() ==> v@[a].0 > col,
        decreases right - left,
    {
        let mid = left + (right - left) / 2;
        if v[mid].0 <= col {
            left = mid + 1;
        } else {
            right = mid;
        }
    }
    left
}

// ---------------------------------------------------------------------------
// Closest mapping, stated over the mappings themselves
// ---------------------------------------------------------------------------

/// Mappings `i < n` on generated line `line`.
pub open spec fn gen_member(maps: Seq<Mapping>, line: u32, n: int) -> spec_fn(int) -> bool {
    |i: int| 0 <= i < n && i < maps.len() && maps[i].generated.line == line
}

/// The generated column of mapping `i`.
pub open spec fn gen_column(maps: Seq<Mapping>) -> spec_fn(int) -> int {
    |i: int| maps[i].generated.column as int
}

/// Mappings `i < n` into source `source` at original line `line`.
pub open spec fn orig_member(maps: Seq<Mapping>, source: usize, line: u32, n: int) -> spec_fn(
    int,
) -> bool {
    |i: int|
        0 <= i < n && i < maps.len() && maps[i].source_index == Some(source)
            && maps[i].original is Some && maps[i].original->0.line == line
}

/// The original column of mapping `i`.
pub open spec fn orig_column(maps: Seq<Mapping>) -> spec_fn(int) -> int {
    |i: int| maps[i].original->0.column as int
}

/// Mapping `i` comes no later than mapping `j`: a smaller column, or the
/// same column and an index no greater.
pub open spec fn key_le(col: spec_fn(int) -> int, i: int, j: int) -> bool {
    col(i) < col(j) || (col(i) == col(j) && i <= j)
}

/// `i` is the last member at or before column `target`.
pub open spec fn best_at_or_before(
    member: spec_fn(int) -> bool,
    col: spec_fn(int) -> int,
    target: int,
    i: int,
) -> bool {
    &&& member(i)
    &&& col(i) <= target
    &&& forall|j: int| #[trigger] member(j) && col(j) <= target ==> key_le(col, j, i)
}


/// The mapping a lookup lands on: the last member whose column does not
/// exceed the target column, or none when there is no such member.
pub open spec fn closest_member(member: spec_fn(int) -> bool, col: spec_fn(int) -> int, target: int) -> Option<
    int,
> {
    if exists|i: int| best_at_or_before(member, col, target, i) {
        Some(choose|i: int| best_at_or_before(member, col, target, i))
    } else {
        None
    }
}

/// A column table that lists exactly the members, with their columns,
/// in order.
pub open spec fn table_for(v: Seq<(u32, usize)>, member: spec_fn(int) -> bool, col: spec_fn(int) -> int) -> bool {
    &&& table_sorted(v)
    &&& v.len() > 0
    &&& forall|a: int| 0 <= a < v.len() ==> #[trigger] member(v[a].1 as int) && col(v[a].1 as int) == v[a].0 as int
    &&& forall|i: int| #[trigger] member(i) ==> exists|a: int| 0 <= a < v.len() && v[a].1 == i
}

proof fn lemma_table_columns_sorted(v: Seq<(u32, usize)>)
    requires
        table_sorted(v),
    ensures
        columns_sorted(v),
{
    assert forall|a: int, b: int| 0 <= a <= b < v.len() implies v[a].0 <= v[b].0 by {
        if a < b {
            assert(entry_lt(v[a], v[b]));
        }
    }
}

/// `q` splits the table: columns before it are at most `target`, after it above.
pub open spec fn is_split(v: Seq<(u32, usize)>, target: u32, q: int) -> bool {
    &&& 0 <= q <= v.len()
    &&& forall|a: int| 0 <= a < q ==> v[a].0 <= target
    &&& forall|a: int| q <= a < v.len() ==> v[a].0 > target
}

proof fn lemma_split_exists(v: Seq<(u32, usize)>, target: u32) -> (q: int)
    requires
        columns_sorted(v),
    ensures
        is_split(v, target, q),
    decreases v.len(),
{
    if v.len() == 0 {
        0
    } else {
        let w = v.drop_last();
        assert(columns_sorted(w));
        let q = lemma_split_exists(w, target);
        if v.last().0 <= target {
            assert(q == w.len()) by {
                if q < w.len() {
                    assert(w[q].0 <= v.last().0);
                }
            }
            assert forall|a: int| 0 <= a < v.len() implies v[a].0 <= target by {
                if a < w.len() {
                    assert(v[a] == w[a]);
                }
            }
            v.len() as int
        } else {
            assert forall|a: int| q <= a < v.len() implies v[a].0 > target by {
                if a < w.len() {
                    assert(v[a] == w[a]);
                }
            }
            assert forall|a: int| 0 <= a < q implies v[a].0 <= target by {
                assert(v[a] == w[a]);
            }
            q
        }
    }
}

/// A table listing the members answers lookups as `closest_member` does.
proof fn lemma_table_closest(v: Seq<(u32, usize)>, member: spec_fn(int) -> bool, col: spec_fn(int) -> int, target: u32)
    requires
        table_for(v, member, col),
    ensures
        match closest_entry(v, target) {
            Some(e) => closest_member(member, col, target as int) == Some(e as int),
            None => closest_member(member, col, target as int) is None,
        },
{
    lemma_table_columns_sorted(v);
    let p = count_at_or_before(v, target) as int;
    let q = lemma_split_exists(v, target);
    lemma_count_split(v, target, q);
    assert(p == q);
    if p > 0 {
        let i = v[p - 1].1 as int;
        assert(member(v[p - 1].1 as int));
        assert(member(i) && col(i) == v[p - 1].0 as int);
        assert forall|j: int| #[trigger] member(j) && col(j) <= target implies key_le(col, j, i) by {
            let a = choose|a: int| 0 <= a < v.len() && v[a].1 == j;
            assert(member(v[a].1 as int));
            if a >= p {
                assert(v[a].0 > target);
            }
            if a < p - 1 {
                assert(entry_lt(v[a], v[p - 1]));
            }
        }
        assert(best_at_or_before(member, col, target as int, i));
        let k = choose|k: int| best_at_or_before(member, col, target as int, k);
        assert(key_le(col, k, i) && key_le(col, i, k));
        assert(k == i);
    } else {
        assert(!exists|k: int| best_at_or_before(member, col, target as int, k)) by {
            if exists|k: int| best_at_or_before(member, col, target as int, k) {
                let k = choose|k: int| best_at_or_before(member, col, target as int, k);
                let a = choose|a: int| 0 <= a < v.len() && v[a].1 == k;
                assert(member(v[a].1 as int));
                assert(v[a].0 > target);
            }
        }
    }
}

// ---------------------------------------------------------------------------
// Source maps
// ---------------------------------------------------------------------------

/// An original location with its source.
#[derive(Debug, Clone, PartialEq, Eq)]
pub struct OriginalLocation {
    /// Source file path or URL (with the source root prepended).
    pub source: String,
    /// Position in the original source.
    pub position: Position,
    /// Original name, if the mapping has one.
    pub name: Option<String>,
}

/// A generated location.
#[derive(Debug, Clone, Copy, PartialEq, Eq, Structural)]
pub struct GeneratedLocation {
    /// Position in the generated source.
    pub position: Position,
}

/// The fields of a source map as they stand in its JSON text.
#[derive(Debug, Clone)]
pub struct RawSourceMap {
    /// Source map version (3).
    pub version: u32,
    /// Generated file name.
    pub file: Option<String>,
    /// Prefix of every source path.
    pub source_root: Option<String>,
    /// Original source files.
    pub sources: Vec<String>,
    /// Contents of the original sources, where given.
    pub sources_content: Option<Vec<Option<String>>>,
    /// Symbol names.
    pub names: Vec<String>,
    /// VLQ-encoded mappings.
    pub mappings: String,
}

/// A parsed source map with lookup tables in both directions.
#[derive(Debug, Clone)]
pub struct SourceMap {
    /// Source map version.
    pub version: u32,
    /// Generated file name.
    pub file: Option<String>,
    /// Prefix of every source path.
    pub source_root: Option<String>,
    /// Original source files.
    pub sources: Vec<String>,
    /// Source contents by source index.
    pub sources_content: HashMap<usize, String>,
    /// Symbol names.
    pub names: Vec<String>,
    /// The decoded mappings and their lookup tables.
    pub index: MappingIndex,
}

/// Decoded mappings with lookup tables by generated position (line, then
/// column) and by original position (source, line, then column).
#[derive(Debug, Clone)]
pub struct MappingIndex {
    mappings: Vec<Mapping>,
    generated_index: HashMap<u32, Vec<(u32, usize)>>,
    original_index: HashMap<usize, HashMap<u32, Vec<(u32, usize)>>>,
}

impl MappingIndex {
    /// The decoded mappings, in order.
    pub closed spec fn mapping_seq(&self) -> Seq<Mapping> {
        self.mappings@
    }

    /// The lookup tables agree with the mappings.
    pub closed spec fn wf(&self) -> bool {
        &&& gen_index_ok(self.generated_index@, self.mappings@, self.mappings@.len() as int)
        &&& orig_index_ok(self.original_index@, self.mappings@, self.mappings@.len() as int)
    }
}

/// The index of every generated line: a column table per line that has
/// mappings among the first `n`.
pub open spec fn gen_index_ok(gi: Map<u32, Vec<(u32, usize)>>, maps: Seq<Mapping>, n: int) -> bool {
    &&& forall|l: u32| #[trigger]
        gi.contains_key(l) ==> table_for(gi[l]@, gen_member(maps, l, n), gen_column(maps))
    &&& forall|i: int| 0 <= i < n ==> #[trigger] gi.contains_key(maps[i].generated.line)
}

/// Whether mapping `i` has an original position.
pub open spec fn has_original(m: Mapping) -> bool {
    m.source_index is Some && m.original is Some
}

/// The index of every original line: per source, a column table per line.
pub open spec fn orig_index_ok(
    oi: Map<usize, HashMap<u32, Vec<(u32, usize)>>>,
    maps: Seq<Mapping>,
    n: int,
) -> bool {
    &&& forall|s: usize, l: u32|
        oi.contains_key(s) && #[trigger] oi[s]@.contains_key(l) ==> table_for(
            oi[s]@[l]@,
            orig_member(maps, s, l, n),
            orig_column(maps),
        )
    &&& forall|i: int|
        0 <= i < n && #[trigger] has_original(maps[i]) ==> oi.contains_key(
            maps[i].source_index->0,
        ) && oi[maps[i].source_index->0]@.contains_key(maps[i].original->0.line)
}

/// Contents by index, from the optional per-source contents.
pub open spec fn content_map(contents: Seq<Option<String>>, n: int) -> Map<usize, String> {
    Map::new(
        |i: usize| (i as int) < n && (i as int) < contents.len() && contents[i as int] is Some,
        |i: usize| contents[i as int]->0,
    )
}

/// The character views of a list of strings.
pub open spec fn string_views(v: Seq<String>) -> Seq<Seq<char>> {
    v.map_values(|s: String| s@)
}

/// The last component of a `/`-separated path (the whole of it when it has
/// no `/`), as `rsplit('/').next()` yields it.
pub open spec fn file_name(s: Seq<char>) -> Seq<char>
    decreases s.len(),
{
    if s.len() == 0 {
        s
    } else if s.last() == '/' {
        Seq::empty()
    } else {
        file_name(s.drop_last()).push(s.last())
    }
}

/// The index of the first element equal to `t`.
pub open spec fn first_match(xs: Seq<Seq<char>>, t: Seq<char>) -> Option<int>
    decreases xs.len(),
{
    if xs.len() == 0 {
        None
    } else {
        match first_match(xs.drop_last(), t) {
            Some(i) => Some(i),
            None => if xs.last() == t {
                Some(xs.len() - 1)
            } else {
                None
            },
        }
    }
}

/// How a source name resolves to a source index: an exact match first;
/// then, when the name starts with the source root, a match of the rest;
/// then a match of the file name alone.
pub open spec fn resolve_source(sources: Seq<Seq<char>>, root: Option<Seq<char>>, source: Seq<char>) -> Option<int> {
    match first_match(sources, source) {
        Some(i) => Some(i),
        None => {
            let stripped = match root {
                Some(r) => if has_prefix(source, r) {
                    first_match(sources, source.skip(r.len() as int))
                } else {
                    None
                },
                None => None,
            };
            match stripped {
                Some(i) => Some(i),
                None => first_match(sources.map_values(|x: Seq<char>| file_name(x)), file_name(source)),
            }
        },
    }
}

proof fn lemma_table_extend(
    v: Seq<(u32, usize)>,
    pos: int,
    old_m: spec_fn(int) -> bool,
    new_m: spec_fn(int) -> bool,
    col: spec_fn(int) -> int,
    k: usize,
    c: u32,
)
    requires
        (v.len() == 0 && forall|i: int| !#[trigger] old_m(i)) || table_for(v, old_m, col),
        forall|i: int| #[trigger] new_m(i) <==> (old_m(i) || i == k),
        col(k as int) == c as int,
        0 <= pos <= v.len(),
        table_sorted(v.insert(pos, (c, k))),
    ensures
        table_for(v.insert(pos, (c, k)), new_m, col),
{
    let w = v.insert(pos, (c, k));
    assert forall|a: int| 0 <= a < w.len() implies #[trigger] new_m(w[a].1 as int) && col(
        w[a].1 as int,
    ) == w[a].0 as int by {
        if a < pos {
            assert(w[a] == v[a]);
            assert(old_m(v[a].1 as int));
        } else if a > pos {
            assert(w[a] == v[a - 1]);
            assert(old_m(v[a - 1].1 as int));
        }
    }
    assert forall|i: int| #[trigger] new_m(i) implies exists|a: int| 0 <= a < w.len() && w[a].1 == i by {
        if i == k {
            assert(w[pos].1 == i);
        } else {
            assert(old_m(i));
            let a = choose|a: int| 0 <= a < v.len() && v[a].1 == i;
            if a < pos {
                assert(w[a] == v[a]);
            } else {
                assert(w[a + 1] == v[a]);
            }
        }
    }
}

proof fn lemma_table_same(v: Seq<(u32, usize)>, m1: spec_fn(int) -> bool, m2: spec_fn(int) -> bool, col: spec_fn(int) -> int)
    requires
        table_for(v, m1, col),
        forall|i: int| #[trigger] m1(i) <==> m2(i),
    ensures
        table_for(v, m2, col),
{
    assert forall|a: int| 0 <= a < v.len() implies #[trigger] m2(v[a].1 as int) && col(v[a].1 as int)
        == v[a].0 as int by {
        assert(m1(v[a].1 as int));
    }
    assert forall|i: int| #[trigger] m2(i) implies exists|a: int| 0 <= a < v.len() && v[a].1 == i by {
        assert(m1(i));
    }
}

/// Builds the generated-position index of a mapping list.
fn build_generated_index(maps: &Vec<Mapping>) -> (gi: HashMap<u32, Vec<(u32, usize)>>)
    ensures
        gen_index_ok(gi@, maps@, maps@.len() as int),
{
    let mut gi: HashMap<u32, Vec<(u32, usize)>> = HashMap::new();
    let mut k: usize = 0;
    while k < maps.len()
        invariant
            k <= maps@.len(),
            gen_index_ok(gi@, maps@, k as int),
        decreases maps@.len() - k,
    {
        let m = maps[k];
        let line = m.generated.line;
        let ghost old_gi = gi@;
        let mut entries = match gi.remove(&line) {
            Some(v) => v,
            None => Vec::new(),
        };
        let ghost old_entries = entries@;
        proof {
            if old_gi.contains_key(line) {
                assert(table_for(old_entries, gen_member(maps@, line, k as int), gen_column(maps@)));
            } else {
                assert forall|i: int| !#[trigger] gen_member(maps@, line, k as int)(i) by {
                    if gen_member(maps@, line, k as int)(i) {
                        assert(old_gi.contains_key(maps@[i].generated.line));
                    }
                }
            }
            assert forall|a: int| 0 <= a < old_entries.len() implies old_entries[a].1 < k by {
                assert(gen_member(maps@, line, k as int)(old_entries[a].1 as int));
            }
        }
        let pos = insert_entry(&mut entries, m.generated.column, k);
        proof {
            lemma_table_extend(
                old_entries,
                pos as int,
                gen_member(maps@, line, k as int),
                gen_member(maps@, line, k + 1),
                gen_column(maps@),
                k,
                m.generated.column,
            );
        }
        gi.insert(line, entries);
        proof {
            assert forall|l: u32| #[trigger] gi@.contains_key(l) implies table_for(
                gi@[l]@,
                gen_member(maps@, l, k + 1),
                gen_column(maps@),
            ) by {
                if l != line {
                    assert(old_gi.contains_key(l));
                    lemma_table_same(
                        old_gi[l]@,
                        gen_member(maps@, l, k as int),
                        gen_member(maps@, l, k + 1),
                        gen_column(maps@),
                    );
                }
            }
            assert forall|i: int| 0 <= i < k + 1 implies #[trigger] gi@.contains_key(
                maps@[i].generated.line,
            ) by {
                if i < k {
                    assert(old_gi.contains_key(maps@[i].generated.line));
                }
            }
        }
        k = k + 1;
    }
    gi
}

/// Builds the original-position index of a mapping list.
fn build_original_index(maps: &Vec<Mapping>) -> (oi: HashMap<usize, HashMap<u32, Vec<(u32, usize)>>>)
    ensures
        orig_index_ok(oi@, maps@, maps@.len() as int),
{
    let mut oi: HashMap<usize, HashMap<u32, Vec<(u32, usize)>>> = HashMap::new();
    let mut k: usize = 0;
    while k < maps.len()
        invariant
            k <= maps@.len(),
            orig_index_ok(oi@, maps@, k as int),
        decreases maps@.len() - k,
    {
        let m = maps[k];
        let ghost old_oi = oi@;
        match (m.source_index, m.original) {
            (Some(si), Some(orig)) => {
                let line = orig.line;
                let mut lines = match oi.remove(&si) {
                    Some(h) => h,
                    None => HashMap::new(),
                };
                let ghost old_lines = lines@;
                let mut entries = match lines.remove(&line) {
                    Some(v) => v,
                    None => Vec::new(),
                };
                let ghost old_entries = entries@;
                proof {
                    if old_oi.contains_key(si) && old_lines.contains_key(line) {
                        assert(table_for(
                            old_entries,
                            orig_member(maps@, si, line, k as int),
                            orig_column(maps@),
                        ));
                    } else {
                        assert forall|i: int| !#[trigger] orig_member(maps@, si, line, k as int)(i) by {
                            if orig_member(maps@, si, line, k as int)(i) {
                                assert(has_original(maps@[i]));
                            }
                        }
                    }
                    assert forall|a: int| 0 <= a < old_entries.len() implies old_entries[a].1 < k by {
                        assert(orig_member(maps@, si, line, k as int)(old_entries[a].1 as int));
                    }
                }
                let pos = insert_entry(&mut entries, orig.column, k);
                proof {
                    lemma_table_extend(
                        old_entries,
                        pos as int,
                        orig_member(maps@, si, line, k as int),
                        orig_member(maps@, si, line, k + 1),
                        orig_column(maps@),
                        k,
                        orig.column,
                    );
                }
                lines.insert(line, entries);
                oi.insert(si, lines);
                proof {
                    assert forall|s: usize, l: u32|
                        oi@.contains_key(s) && #[trigger] oi@[s]@.contains_key(l) implies table_for(
                        oi@[s]@[l]@,
                        orig_member(maps@, s, l, k + 1),
                        orig_column(maps@),
                    ) by {
                        if s != si || l != line {
                            if s == si {
                                assert(old_lines.contains_key(l));
                                assert(old_oi.contains_key(s));
                                assert(old_lines == old_oi[s]@);
                            } else {
                                assert(old_oi.contains_key(s));
                            }
                            lemma_table_same(
                                old_oi[s]@[l]@,
                                orig_member(maps@, s, l, k as int),
                                orig_member(maps@, s, l, k + 1),
                                orig_column(maps@),
                            );
                        }
                    }
                    assert forall|i: int|
                        0 <= i < k + 1 && #[trigger] has_original(maps@[i]) implies oi@.contains_key(
                        maps@[i].source_index->0,
                    ) && oi@[maps@[i].source_index->0]@.contains_key(maps@[i].original->0.line) by {
                        if i < k {
                            assert(old_oi.contains_key(maps@[i].source_index->0));
                            if maps@[i].source_index->0 == si {
                                assert(old_lines == old_oi[si]@);
                            }
                        }
                    }
                }
            },
            _ => {
                proof {
                    assert forall|s: usize, l: u32|
                        oi@.contains_key(s) && #[trigger] oi@[s]@.contains_key(l) implies table_for(
                        oi@[s]@[l]@,
                        orig_member(maps@, s, l, k + 1),
                        orig_column(maps@),
                    ) by {
                        lemma_table_same(
                            oi@[s]@[l]@,
                            orig_member(maps@, s, l, k as int),
                            orig_member(maps@, s, l, k + 1),
                            orig_column(maps@),
                        );
                    }
                    assert forall|i: int|
                        0 <= i < k + 1 && #[trigger] has_original(maps@[i]) implies oi@.contains_key(
                        maps@[i].source_index->0,
                    ) && oi@[maps@[i].source_index->0]@.contains_key(maps@[i].original->0.line) by {
                        if i == k {
                            assert(!has_original(m));
                        }
                    }
                }
            },
        }
        k = k + 1;
    }
    oi
}

/// The index of the first vector equal to `t`.
fn first_equal(xs: &Vec<Vec<char>>, t: &[char]) -> (r: Option<usize>)
    ensures
        match first_match(views_of(xs@), t@) {
            Some(i) => r == Some(i as usize) && i < xs@.len(),
            None => r is None,
        },
{
    let mut k: usize = 0;
    while k < xs.len()
        invariant
            k <= xs@.len(),
            first_match(views_of(xs@).take(k as int), t@) is None,
        decreases xs@.len() - k,
    {
        proof {
            assert(views_of(xs@).take(k + 1).drop_last() =~= views_of(xs@).take(k as int));
        }
        if chars_eq(xs[k].as_slice(), t) {
            proof {
                assert(views_of(xs@).take(k + 1).last() == t@);
                assert(first_match(views_of(xs@).take(k + 1), t@) == Some(k as int));
                lemma_first_match_prefix(views_of(xs@), k + 1);
            }
            return Some(k);
        }
        k = k + 1;
    }
    proof {
        assert(views_of(xs@).take(k as int) =~= views_of(xs@));
    }
    None
}

proof fn lemma_first_match_prefix(xs: Seq<Seq<char>>, k: int)
    requires
        0 <= k <= xs.len(),
    ensures
        forall|t: Seq<char>|
            #[trigger] first_match(xs.take(k), t) is Some ==> first_match(xs, t) == first_match(
                xs.take(k),
                t,
            ),
    decreases xs.len() - k,
{
    if k < xs.len() {
        lemma_first_match_prefix(xs, k + 1);
        assert(xs.take(k + 1).drop_last() =~= xs.take(k));
        assert forall|t: Seq<char>| #[trigger]
            first_match(xs.take(k), t) is Some implies first_match(xs, t) == first_match(
            xs.take(k),
            t,
        ) by {
            assert(first_match(xs.take(k + 1), t) == first_match(xs.take(k), t));
        }
    } else {
        assert(xs.take(k) =~= xs);
    }
}

/// The characters of `s` from index `start` on.
fn suffix_from(s: &[char], start: usize) -> (r: Vec<char>)
    requires
        start <= s@.len(),
    ensures
        r@ == s@.skip(start as int),
{
    let mut r: Vec<char> = Vec::new();
    let mut i = start;
    while i < s.len()
        invariant
            start <= i <= s@.len(),
            r@ == s@.subrange(start as int, i as int),
        decreases s@.len() - i,
    {
        r.push(s[i]);
        proof {
            assert(r@ =~= s@.subrange(start as int, i + 1));
        }
        i = i + 1;
    }
    proof {
        assert(s@.subrange(start as int, s@.len() as int) =~= s@.skip(start as int));
    }
    r
}

/// The last `/`-separated component of a path.
fn file_name_chars(s: &[char]) -> (r: Vec<char>)
    ensures
        r@ == file_name(s@),
{
    let mut start = s.len();
    while start > 0 && s[start - 1] != '/'
        invariant
            start <= s@.len(),
            forall|a: int| start <= a < s@.len() ==> s@[a] != '/',
        decreases start,
    {
        start = start - 1;
    }
    proof {
        lemma_file_name_suffix(s@, start as int);
    }
    suffix_from(s, start)
}

proof fn lemma_file_name_suffix(s: Seq<char>, start: int)
    requires
        0 <= start <= s.len(),
        forall|a: int| start <= a < s.len() ==> s[a] != '/',
        start == 0 || s[start - 1] == '/',
    ensures
        file_name(s) == s.skip(start),
    decreases s.len(),
{
    if s.len() > 0 {
        if start == s.len() {
            assert(s.skip(start) =~= Seq::<char>::empty());
        } else {
            lemma_file_name_suffix(s.drop_last(), start);
            assert(s.drop_last().skip(start).push(s.last()) =~= s.skip(start));
        }
    }
}

impl SourceMap {
    /// The decoded mappings, in order.
    pub open spec fn mapping_seq(&self) -> Seq<Mapping> {
        self.index.mapping_seq()
    }

    /// The lookup tables agree with the mappings.
    pub open spec fn wf(&self) -> bool {
        self.index.wf()
    }

    /// The source-root view, if any.
    pub open spec fn root_view(&self) -> Option<Seq<char>> {
        match self.source_root {
            Some(r) => Some(r@),
            None => None,
        }
    }

    /// Which source a name resolves to.
    pub open spec fn resolved(&self, source: Seq<char>) -> Option<int> {
        resolve_source(string_views(self.sources@), self.root_view(), source)
    }

    /// Which mapping a generated position lands on.
    pub open spec fn generated_lookup(&self, p: Position) -> Option<int> {
        closest_member(
            gen_member(self.mapping_seq(), p.line, self.mapping_seq().len() as int),
            gen_column(self.mapping_seq()),
            p.column as int,
        )
    }

    /// Whether a generated position maps to an original location: the
    /// lookup lands on a mapping with an original position in a listed
    /// source.
    pub open spec fn original_found(&self, p: Position) -> bool {
        &&& self.generated_lookup(p) is Some
        &&& has_original(self.mapping_seq()[self.generated_lookup(p)->0])
        &&& self.mapping_seq()[self.generated_lookup(p)->0].source_index->0 < self.sources@.len()
    }

    /// The original location a found generated position maps to: the
    /// mapping's original position, its source (behind the source root),
    /// and its name when listed.
    pub open spec fn original_location_at(&self, p: Position, loc: OriginalLocation) -> bool {
        let m = self.mapping_seq()[self.generated_lookup(p)->0];
        &&& loc.position == m.original->0
        &&& loc.source@ == match self.source_root {
            Some(root) => root@ + self.sources@[m.source_index->0 as int]@,
            None => self.sources@[m.source_index->0 as int]@,
        }
        &&& loc.name == if m.name_index matches Some(n) && n < self.names@.len() {
            Some(self.names@[m.name_index->0 as int])
        } else {
            None
        }
    }

    /// Which mapping an original position in source `s` lands on.
    pub open spec fn original_lookup(&self, s: usize, p: Position) -> Option<int> {
        closest_member(
            orig_member(self.mapping_seq(), s, p.line, self.mapping_seq().len() as int),
            orig_column(self.mapping_seq()),
            p.column as int,
        )
    }

    /// Builds a source map from its raw fields: decodes the mappings and
    /// indexes them by generated and by original position.
    pub fn from_raw(raw: RawSourceMap) -> (r: Result<SourceMap, SourceMapError>)
        requires
            !mappings_overflow(raw.mappings@),
        ensures
            match mappings_decoded(raw.mappings@) {
                Ok(ms) => r matches Ok(sm) && {
                    &&& sm.wf()
                    &&& sm.mapping_seq() == ms
                    &&& sm.version == raw.version
                    &&& sm.file == raw.file
                    &&& sm.source_root == raw.source_root
                    &&& sm.sources == raw.sources
                    &&& sm.names == raw.names
                    &&& sm.sources_content@ == match raw.sources_content {
                        Some(cs) => content_map(cs@, cs@.len() as int),
                        None => Map::empty(),
                    }
                },
                Err(stop) => r matches Err(SourceMapError::InvalidVlq(m)) && m@ == vlq_error_message(
                    stop,
                ),
            },
    {
        let mappings = match parse_vlq_mappings(raw.mappings.as_str()) {
            Ok(ms) => ms,
            Err(e) => {
                return Err(e);
            },
        };
        let mut sources_content: HashMap<usize, String> = HashMap::new();
        match &raw.sources_content {
            Some(contents) => {
                let mut idx: usize = 0;
                while idx < contents.len()
                    invariant
                        idx <= contents@.len(),
                        sources_content@ == content_map(contents@, idx as int),
                    decreases contents@.len() - idx,
                {
                    match &contents[idx] {
                        Some(c) => {
                            sources_content.insert(idx, c.clone());
                        },
                        None => {},
                    }
                    proof {
                        assert(sources_content@ =~= content_map(contents@, idx + 1));
                    }
                    idx = idx + 1;
                }
            },
            None => {
                proof {
                    assert(sources_content@ =~= Map::<usize, String>::empty());
                }
            },
        }
        let generated_index = build_generated_index(&mappings);
        let original_index = build_original_index(&mappings);
        Ok(
            SourceMap {
                version: raw.version,
                file: raw.file,
                source_root: raw.source_root,
                sources: raw.sources,
                sources_content,
                names: raw.names,
                index: MappingIndex { mappings, generated_index, original_index },
            },
        )
    }

    /// Looks up the original position of a generated position.
    pub fn original_position_for(&self, generated: Position) -> (r: Result<
        OriginalLocation,
        SourceMapError,
    >)
        requires
            self.wf(),
        ensures
            match self.generated_lookup(generated) {
                None => r matches Err(SourceMapError::MappingNotFound),
                Some(i) => {
                    let m = self.mapping_seq()[i];
                    if !has_original(m) {
                        r matches Err(SourceMapError::MappingNotFound)
                    } else if m.source_index->0 >= self.sources@.len() {
                        r matches Err(SourceMapError::SourceNotFound(msg)) && msg@ == "index "@
                            + decimal_digits(m.source_index->0 as nat)
                    } else {
                        r matches Ok(loc) && {
                            &&& loc.position == m.original->0
                            &&& loc.source@ == match self.source_root {
                                Some(root) => root@ + self.sources@[m.source_index->0 as int]@,
                                None => self.sources@[m.source_index->0 as int]@,
                            }
                            &&& loc.name == if m.name_index matches Some(n) && n
                                < self.names@.len() {
                                Some(self.names@[m.name_index->0 as int])
                            } else {
                                None
                            }
                        }
                    }
                },
            },
    {
        let columns = match self.index.generated_index.get(&generated.line) {
            Some(c) => c,
            None => {
                proof {
                    let member = gen_member(self.index.mappings@, generated.line, self.index.mappings@.len() as int);
                    assert forall|i: int| !#[trigger] member(i) by {
                        if member(i) {
                            assert(self.index.generated_index@.contains_key(self.index.mappings@[i].generated.line));
                        }
                    }
                }
                return Err(SourceMapError::MappingNotFound);
            },
        };
        proof {
            let member = gen_member(self.index.mappings@, generated.line, self.index.mappings@.len() as int);
            assert(table_for(columns@, member, gen_column(self.index.mappings@)));
            lemma_table_closest(columns@, member, gen_column(self.index.mappings@), generated.column);
            lemma_table_columns_sorted(columns@);
        }
        let mapping_idx = match find_closest_mapping(columns.as_slice(), generated.column) {
            Some(i) => i,
            None => {
                return Err(SourceMapError::MappingNotFound);
            },
        };
        let mapping = self.index.mappings[mapping_idx];
        let source_idx = match mapping.source_index {
            Some(s) => s,
            None => {
                return Err(SourceMapError::MappingNotFound);
            },
        };
        let original = match mapping.original {
            Some(o) => o,
            None => {
                return Err(SourceMapError::MappingNotFound);
            },
        };
        if source_idx >= self.sources.len() {
            let digits = decimal_string(source_idx as u64);
            let msg = concat_str("index ", digits.as_str());
            return Err(SourceMapError::SourceNotFound(msg));
        }
        let source = self.sources[source_idx].clone();
        let full_source = match &self.source_root {
            Some(root) => concat_str(root.as_str(), source.as_str()),
            None => source,
        };
        let name = match mapping.name_index {
            Some(n) => if n < self.names.len() {
                Some(self.names[n].clone())
            } else {
                None
            },
            None => None,
        };
        Ok(OriginalLocation { source: full_source, position: original, name })
    }

    /// Looks up the generated position of an original position in a source.
    pub fn generated_position_for(&self, source: &str, original: Position) -> (r: Result<
        GeneratedLocation,
        SourceMapError,
    >)
        requires
            self.wf(),
        ensures
            match self.resolved(source@) {
                None => r matches Err(SourceMapError::SourceNotFound(m)) && m@ == source@,
                Some(s) => match self.original_lookup(s as usize, original) {
                    None => r matches Err(SourceMapError::MappingNotFound),
                    Some(i) => r matches Ok(g) && g.position == self.mapping_seq()[i].generated,
                },
            },
    {
        let source_idx = match self.find_source_index(source) {
            Ok(i) => i,
            Err(e) => {
                return Err(e);
            },
        };
        let ghost member = orig_member(
            self.index.mappings@,
            source_idx,
            original.line,
            self.index.mappings@.len() as int,
        );
        let line_map = match self.index.original_index.get(&source_idx) {
            Some(m) => m,
            None => {
                proof {
                    self.lemma_no_original_members(source_idx, original.line);
                }
                return Err(SourceMapError::MappingNotFound);
            },
        };
        let columns = match line_map.get(&original.line) {
            Some(c) => c,
            None => {
                proof {
                    self.lemma_no_original_members(source_idx, original.line);
                }
                return Err(SourceMapError::MappingNotFound);
            },
        };
        proof {
            assert(table_for(columns@, member, orig_column(self.index.mappings@)));
            lemma_table_closest(columns@, member, orig_column(self.index.mappings@), original.column);
            lemma_table_columns_sorted(columns@);
        }
        let mapping_idx = match find_closest_mapping(columns.as_slice(), original.column) {
            Some(i) => i,
            None => {
                return Err(SourceMapError::MappingNotFound);
            },
        };
        Ok(GeneratedLocation { position: self.index.mappings[mapping_idx].generated })
    }

    proof fn lemma_no_original_members(&self, s: usize, line: u32)
        requires
            self.wf(),
            !(self.index.original_index@.contains_key(s) && self.index.original_index@[s]@.contains_key(line)),
        ensures
            self.original_lookup(s, Position { line, column: 0 }) is None,
            forall|c: u32| #[trigger] self.original_lookup(s, Position { line, column: c }) is None,
    {
        let member = orig_member(self.index.mappings@, s, line, self.index.mappings@.len() as int);
        assert forall|i: int| !#[trigger] member(i) by {
            if member(i) {
                assert(has_original(self.index.mappings@[i]));
            }
        }
    }

    /// The content of a source, when the map carries it.
    pub fn source_content(&self, source: &str) -> (r: Option<&str>)
        ensures
            match self.resolved(source@) {
                Some(i) if self.sources_content@.contains_key(i as usize) => r matches Some(t) && t@
                    == self.sources_content@[i as usize]@,
                _ => r is None,
            },
    {
        let idx = match self.find_source_index(source) {
            Ok(i) => i,
            Err(_) => {
                return None;
            },
        };
        match self.sources_content.get(&idx) {
            Some(s) => Some(s.as_str()),
            None => None,
        }
    }

    /// All source files.
    pub fn source_files(&self) -> (r: &[String])
        ensures
            r@ == self.sources@,
    {
        self.sources.as_slice()
    }

    /// The number of mappings.
    pub fn mapping_count(&self) -> (n: usize)
        ensures
            n == self.mapping_seq().len(),
    {
        self.index.mappings.len()
    }

    /// Resolves a source name to its index: an exact match, then the name
    /// without the source root, then the file name alone.
    pub fn find_source_index(&self, source: &str) -> (r: Result<usize, SourceMapError>)
        ensures
            match self.resolved(source@) {
                Some(i) => r == Ok::<usize, SourceMapError>(i as usize) && i < self.sources@.len(),
                None => r matches Err(SourceMapError::SourceNotFound(m)) && m@ == source@,
            },
    {
        let target = chars_of(source);
        let mut names: Vec<Vec<char>> = Vec::new();
        let mut k: usize = 0;
        while k < self.sources.len()
            invariant
                k <= self.sources@.len(),
                names@.len() == k,
                forall|j: int| 0 <= j < k ==> #[trigger] names@[j]@ == self.sources@[j]@,
            decreases self.sources@.len() - k,
        {
            let cs = chars_of(self.sources[k].as_str());
            names.push(cs);
            k = k + 1;
        }
        proof {
            assert(views_of(names@) =~= string_views(self.sources@));
        }
        if let Some(i) = first_equal(&names, target.as_slice()) {
            return Ok(i);
        }
        match &self.source_root {
            Some(root) => {
                let root_chars = chars_of(root.as_str());
                if chars_start_with(target.as_slice(), root_chars.as_slice()) {
                    let rest = suffix_from(target.as_slice(), root_chars.len());
                    if let Some(i) = first_equal(&names, rest.as_slice()) {
                        return Ok(i);
                    }
                }
            },
            None => {},
        }
        let mut base_names: Vec<Vec<char>> = Vec::new();
        let mut k: usize = 0;
        while k < names.len()
            invariant
                k <= names@.len(),
                base_names@.len() == k,
                forall|j: int| 0 <= j < k ==> #[trigger] base_names@[j]@ == file_name(names@[j]@),
            decreases names@.len() - k,
        {
            let b = file_name_chars(names[k].as_slice());
            base_names.push(b);
            k = k + 1;
        }
        proof {
            assert(views_of(base_names@) =~= views_of(names@).map_values(
                |x: Seq<char>| file_name(x),
            ));
        }
        let base = file_name_chars(target.as_slice());
        if let Some(i) = first_equal(&base_names, base.as_slice()) {
            return Ok(i);
        }
        Err(SourceMapError::SourceNotFound(owned(source)))
    }
}

// ---------------------------------------------------------------------------
// Finding the map and inline maps
// ---------------------------------------------------------------------------

/// `s` without one trailing carriage return.
pub open spec fn strip_cr(s: Seq<char>) -> Seq<char> {
    if s.len() > 0 && s.last() == '\r' {
        s.drop_last()
    } else {
        s
    }
}

/// The lines of a text as `str::lines` yields them: split at `\n`, a `\r`
/// before the `\n` dropped, and no empty line after a final `\n`.
pub open spec fn text_lines(s: Seq<char>) -> Seq<Seq<char>> {
    let parts = split_on(s, '\n');
    let n = parts.len() as int;
    let count = if parts[n - 1].len() == 0 {
        n - 1
    } else {
        n
    };
    Seq::new(
        count as nat,
        |i: int|
            if i < n - 1 {
                strip_cr(parts[i])
            } else {
                parts[i]
            },
    )
}

/// The map URL a trimmed line names, if it is a map comment.
pub open spec fn url_in_line(t: Seq<char>) -> Option<Seq<char>> {
    let p1 = "//# sourceMappingURL="@;
    let p2 = "/*# sourceMappingURL="@;
    let p3 = "//@ sourceMappingURL="@;
    if has_prefix(t, p1) {
        Some(trimmed(t.skip(p1.len() as int)))
    } else if has_prefix(t, p2) && has_suffix(t.skip(p2.len() as int), "*/"@) {
        let rest = t.skip(p2.len() as int);
        Some(trimmed(rest.take(rest.len() - 2)))
    } else if has_prefix(t, p3) {
        Some(trimmed(t.skip(p3.len() as int)))
    } else {
        None
    }
}

/// The URL named by the last map comment among the lines.
pub open spec fn url_in_lines(lines: Seq<Seq<char>>) -> Option<Seq<char>>
    decreases lines.len(),
{
    if lines.len() == 0 {
        None
    } else {
        match url_in_line(trimmed(lines.last())) {
            Some(u) => Some(u),
            None => url_in_lines(lines.drop_last()),
        }
    }
}

fn url_in_trimmed_line(t: &[char], p1: &[char], p2: &[char], p3: &[char], close: &[char]) -> (r:
    Option<Vec<char>>)
    requires
        p1@ == "//# sourceMappingURL="@,
        p2@ == "/*# sourceMappingURL="@,
        p3@ == "//@ sourceMappingURL="@,
        close@ == "*/"@,
    ensures
        match url_in_line(t@) {
            Some(u) => r matches Some(v) && v@ == u,
            None => r is None,
        },
{
    if chars_start_with(t, p1) {
        let rest = suffix_from(t, p1.len());
        return Some(trim_chars(rest.as_slice()));
    }
    if chars_start_with(t, p2) {
        let rest = suffix_from(t, p2.len());
        if chars_end_with(rest.as_slice(), close) {
            proof {
                reveal_strlit("*/");
                assert(close@.len() == 2);
            }
            let body = prefix_upto(rest.as_slice(), rest.len() - 2);
            return Some(trim_chars(body.as_slice()));
        }
    }
    if chars_start_with(t, p3) {
        let rest = suffix_from(t, p3.len());
        return Some(trim_chars(rest.as_slice()));
    }
    None
}

/// The first `n` characters of `s`.
fn prefix_upto(s: &[char], n: usize) -> (r: Vec<char>)
    requires
        n <= s@.len(),
    ensures
        r@ == s@.take(n as int),
{
    let mut r: Vec<char> = Vec::new();
    let mut i: usize = 0;
    while i < n
        invariant
            i <= n <= s@.len(),
            r@ == s@.take(i as int),
        decreases n - i,
    {
        r.push(s[i]);
        proof {
            assert(r@ =~= s@.take(i + 1));
        }
        i = i + 1;
    }
    r
}

impl SourceMap {
    /// Finds the source map URL named by a `//# sourceMappingURL=`,
    /// `/*# sourceMappingURL= */` or legacy `//@ sourceMappingURL=` comment,
    /// searching from the last line up.
    pub fn extract_url_from_source(source: &str) -> (r: Option<String>)
        ensures
            match url_in_lines(text_lines(source@)) {
                Some(u) => r matches Some(s) && s@ == u,
                None => r is None,
            },
    {
        let cs = chars_of(source);
        let parts = split_chars(cs.as_slice(), '\n');
        let ghost pv = views_of(parts@);
        let n = parts.len();
        let count = if parts[n - 1].len() == 0 {
            n - 1
        } else {
            n
        };
        let ghost lines = text_lines(source@);
        proof {
            assert(lines.len() == count);
        }
        let p1 = chars_of("//# sourceMappingURL=");
        let p2 = chars_of("/*# sourceMappingURL=");
        let p3 = chars_of("//@ sourceMappingURL=");
        let close = chars_of("*/");
        let mut k = count;
        proof {
            assert(lines.take(k as int) =~= lines);
        }
        while k > 0
            invariant
                k <= count,
                count == lines.len(),
                n == parts@.len(),
                pv == views_of(parts@),
                pv == split_on(source@, '\n'),
                lines == text_lines(source@),
                count <= n,
                p1@ == "//# sourceMappingURL="@,
                p2@ == "/*# sourceMappingURL="@,
                p3@ == "//@ sourceMappingURL="@,
                close@ == "*/"@,
                url_in_lines(lines) == url_in_lines(lines.take(k as int)),
            decreases k,
        {
            let i = k - 1;
            let raw = &parts[i];
            let line = if i + 1 < n && raw.len() > 0 && raw[raw.len() - 1] == '\r' {
                prefix_upto(raw.as_slice(), raw.len() - 1)
            } else {
                prefix_upto(raw.as_slice(), raw.len())
            };
            proof {
                assert(raw@.take(raw@.len() as int) =~= raw@);
                assert(line@ == lines[i as int]);
                assert(lines.take(k as int).last() == lines[i as int]);
                assert(lines.take(k as int).drop_last() =~= lines.take(i as int));
            }
            let t = trim_chars(line.as_slice());
            match url_in_trimmed_line(t.as_slice(), p1.as_slice(), p2.as_slice(), p3.as_slice(), close.as_slice()) {
                Some(u) => {
                    return Some(string_from_chars(u.as_slice()));
                },
                None => {},
            }
            k = i;
        }
        None
    }
}

/// The text of the error that `String::from_utf8` reports for bytes that
/// are not UTF-8 (its `Display` text); it depends on the bytes alone.
pub uninterp spec fn utf8_error_text(bytes: Seq<u8>) -> Seq<char>;

/// `String::from_utf8`: the text of UTF-8 bytes, or the error's text.
#[verifier::external_body]
pub(crate) fn utf8_to_string(bytes: Vec<u8>) -> (r: Result<String, String>)
    ensures
        match r {
            Ok(s) => valid_utf8(bytes@) && s@ == decode_utf8(bytes@),
            Err(m) => !valid_utf8(bytes@) && m@ == utf8_error_text(bytes@),
        },
{
    match String::from_utf8(bytes) {
        Ok(s) => Ok(s),
        Err(e) => Err(e.to_string()),
    }
}

/// The payload of a data URL, after its base64 JSON prefix.
pub open spec fn data_url_payload(url: Seq<char>) -> Option<Seq<char>> {
    let p1 = "data:application/json;base64,"@;
    let p2 = "data:;base64,"@;
    if has_prefix(url, p1) {
        Some(url.skip(p1.len() as int))
    } else if has_prefix(url, p2) {
        Some(url.skip(p2.len() as int))
    } else {
        None
    }
}

/// What decoding an inline source map gives for a data URL.
pub open spec fn data_url_outcome(data_url: &str, r: Result<String, SourceMapError>) -> bool {
    match data_url_payload(data_url@) {
        None => r matches Err(SourceMapError::InvalidDataUrl(m)) && {
            let head = "Expected data:application/json;base64, prefix, got: "@;
            &&& head.len() <= m@.len()
            &&& m@.take(head.len() as int) == head
            &&& encode_utf8(m@.skip(head.len() as int)) == data_url.spec_bytes().take(
                quoted_len(data_url.spec_bytes()),
            )
        },
        Some(payload) => match base64_decoded(encode_utf8(payload)) {
            Err(c) => r matches Err(SourceMapError::InvalidBase64(m)) && m@
                == "Invalid character: "@.push(c as char),
            Ok(bytes) => if valid_utf8(bytes) {
                r matches Ok(json) && json@ == decode_utf8(bytes)
            } else {
                r matches Err(SourceMapError::InvalidDataUrl(m)) && m@ == utf8_error_text(
                    bytes,
                )
            },
        },
    }
}

/// The last character boundary at or before byte `k`.
pub open spec fn boundary_at_or_before(bytes: Seq<u8>, k: int) -> int
    decreases k,
{
    if k <= 0 {
        0
    } else if is_char_boundary(bytes, k) {
        k
    } else {
        boundary_at_or_before(bytes, k - 1)
    }
}

/// The number of leading bytes of a bad data URL that its error quotes:
/// at most fifty, cut back to whole characters.
pub open spec fn quoted_len(bytes: Seq<u8>) -> int {
    boundary_at_or_before(bytes, if bytes.len() < 50 { bytes.len() as int } else { 50 })
}

impl SourceMap {
    /// Decodes an inline source map (`data:application/json;base64,...` or
    /// `data:;base64,...`) to the JSON text of the map.
    pub fn parse_data_url(data_url: &str) -> (r: Result<String, SourceMapError>)
        ensures
            data_url_outcome(data_url, r),
    {
        let cs = chars_of(data_url);
        let p1 = chars_of("data:application/json;base64,");
        let p2 = chars_of("data:;base64,");
        let payload = if chars_start_with(cs.as_slice(), p1.as_slice()) {
            suffix_from(cs.as_slice(), p1.len())
        } else if chars_start_with(cs.as_slice(), p2.as_slice()) {
            suffix_from(cs.as_slice(), p2.len())
        } else {
            proof {
                assert(data_url_payload(data_url@) is None);
            }
            let len = data_url.as_bytes().len();
            let ghost bytes = data_url.spec_bytes();
            let mut k = if len < 50 {
                len
            } else {
                50
            };
            proof {
                vstd::utf8::encode_utf8_valid_utf8(data_url@);
            }
            while k > 0 && !data_url.is_char_boundary(k)
                invariant
                    k <= 50,
                    bytes == data_url.spec_bytes(),
                    valid_utf8(bytes),
                    boundary_at_or_before(bytes, k as int) == quoted_len(bytes),
                decreases k,
            {
                k = k - 1;
            }
            assert(k == quoted_len(data_url.spec_bytes()));
            assert(is_char_boundary(data_url.spec_bytes(), k as int));
            let (head, _) = data_url.split_at(k);
            let msg = concat_str("Expected data:application/json;base64, prefix, got: ", head);
            proof {
                let h = "Expected data:application/json;base64, prefix, got: "@;
                assert(msg@.take(h.len() as int) =~= h);
                assert(msg@.skip(h.len() as int) =~= head@);
                assert(head.spec_bytes() =~= data_url.spec_bytes().take(k as int));
            }
            return Err(SourceMapError::InvalidDataUrl(msg));
        };
        let text = string_from_chars(payload.as_slice());
        let decoded = match decode_base64(text.as_str()) {
            Ok(d) => d,
            Err(e) => {
                return Err(e);
            },
        };
        match utf8_to_string(decoded) {
            Ok(json) => Ok(json),
            Err(m) => Err(SourceMapError::InvalidDataUrl(m)),
        }
    }
}

/// The lines of a text, as `text_lines` describes them.
pub fn lines_of(source: &str) -> (r: Vec<Vec<char>>)
    ensures
        views_of(r@) == text_lines(source@),
{
    let cs = chars_of(source);
    let parts = split_chars(cs.as_slice(), '\n');
    let ghost pv = views_of(parts@);
    let n = parts.len();
    let count = if parts[n - 1].len() == 0 {
        n - 1
    } else {
        n
    };
    let ghost lines = text_lines(source@);
    let mut r: Vec<Vec<char>> = Vec::new();
    let mut i: usize = 0;
    while i < count
        invariant
            i <= count,
            count == lines.len(),
            count <= n,
            n == parts@.len(),
            pv == views_of(parts@),
            pv == split_on(source@, '\n'),
            lines == text_lines(source@),
            r@.len() == i,
            forall|j: int| 0 <= j < i ==> #[trigger] r@[j]@ == lines[j],
        decreases count - i,
    {
        let raw = &parts[i];
        let line = if i + 1 < n && raw.len() > 0 && raw[raw.len() - 1] == '\r' {
            prefix_upto(raw.as_slice(), raw.len() - 1)
        } else {
            prefix_upto(raw.as_slice(), raw.len())
        };
        proof {
            assert(raw@.take(raw@.len() as int) =~= raw@);
            assert(line@ == lines[i as int]);
        }
        r.push(line);
        i = i + 1;
    }
    proof {
        assert(views_of(r@) =~= lines);
    }
    r
}

/// The members below `m`.
spec fn members_below(member: spec_fn(int) -> bool, m: int) -> spec_fn(int) -> bool {
    |j: int| member(j) && j < m
}

/// Some member at or before `target` below `m` gives a last such member
/// below `m`.
proof fn lemma_best_exists(member: spec_fn(int) -> bool, col: spec_fn(int) -> int, target: int, m: int, k: int)
    requires
        0 <= k < m,
        member(k),
        col(k) <= target,
        forall|j: int| #[trigger] member(j) ==> 0 <= j,
    ensures
        exists|i: int| #[trigger] best_at_or_before(members_below(member, m), col, target, i),
    decreases m,
{
    let cur = members_below(member, m);
    let prev = members_below(member, m - 1);
    let last = m - 1;
    if k == last && !exists|j: int| #[trigger] member(j) && j < m - 1 && col(j) <= target {
        assert(best_at_or_before(cur, col, target, last)) by {
            assert forall|j: int| #[trigger] cur(j) && col(j) <= target implies key_le(col, j, last) by {
                if j != last {
                    assert(member(j) && j < m - 1);
                }
            }
        }
    } else {
        let k2 = if k < last {
            k
        } else {
            choose|j: int| #[trigger] member(j) && j < m - 1 && col(j) <= target
        };
        assert(member(k2) && k2 < m - 1 && col(k2) <= target);
        lemma_best_exists(member, col, target, m - 1, k2);
        let b = choose|i: int| #[trigger] best_at_or_before(prev, col, target, i);
        assert(best_at_or_before(prev, col, target, b));
        if member(last) && col(last) <= target && col(b) <= col(last) {
            assert(best_at_or_before(cur, col, target, last)) by {
                assert forall|j: int| #[trigger] cur(j) && col(j) <= target implies key_le(col, j, last) by {
                    if j != last {
                        assert(prev(j));
                        assert(key_le(col, j, b));
                    }
                }
            }
        } else {
            assert(best_at_or_before(cur, col, target, b)) by {
                assert forall|j: int| #[trigger] cur(j) && col(j) <= target implies key_le(col, j, b) by {
                    if j != last {
                        assert(prev(j));
                    }
                }
            }
        }
    }
}

/// A lookup at a position that a mapping starts at lands on a mapping
/// starting exactly there.
proof fn lemma_exact_lookup(member: spec_fn(int) -> bool, col: spec_fn(int) -> int, n: int, k: int)
    requires
        0 <= k < n,
        member(k),
        forall|j: int| #[trigger] member(j) ==> 0 <= j < n,
    ensures
        closest_member(member, col, col(k)) matches Some(i) && member(i) && col(i) == col(k),
{
    lemma_best_exists(member, col, col(k), n, k);
    assert(members_below(member, n) =~= member);
    let i = choose|i: int| #[trigger] best_at_or_before(member, col, col(k), i);
    assert(best_at_or_before(member, col, col(k), i));
    assert(key_le(col, k, i));
}

/// What a generated position maps to is found exactly: when a mapping
/// starts at generated position `p`, looking `p` up lands on a mapping
/// that starts at `p` (the last one listed among those).
pub proof fn exact_generated_position_is_found(sm: SourceMap, p: Position, k: int)
    requires
        0 <= k < sm.mapping_seq().len(),
        sm.mapping_seq()[k].generated == p,
    ensures
        sm.generated_lookup(p) matches Some(i) && 0 <= i < sm.mapping_seq().len()
            && sm.mapping_seq()[i].generated == p,
{
    let maps = sm.mapping_seq();
    let member = gen_member(maps, p.line, maps.len() as int);
    lemma_exact_lookup(member, gen_column(maps), maps.len() as int, k);
}

/// What an original position maps back to is found exactly: when a
/// mapping of source `s` starts at original position `p`, looking `p` up
/// in that source lands on a mapping of it starting at `p`.
pub proof fn exact_original_position_is_found(sm: SourceMap, s: usize, p: Position, k: int)
    requires
        0 <= k < sm.mapping_seq().len(),
        sm.mapping_seq()[k].source_index == Some(s),
        sm.mapping_seq()[k].original == Some(p),
    ensures
        sm.original_lookup(s, p) matches Some(i) && 0 <= i < sm.mapping_seq().len()
            && sm.mapping_seq()[i].source_index == Some(s) && sm.mapping_seq()[i].original == Some(p),
{
    let maps = sm.mapping_seq();
    let member = orig_member(maps, s, p.line, maps.len() as int);
    lemma_exact_lookup(member, orig_column(maps), maps.len() as int, k);
}

/// Looking an original position up and back gives it again: when a mapping
/// of source `s` starts at original position `p`, and no two mappings share
/// a generated position, the lookup of `p` in `s` lands on a mapping whose
/// generated position looks up to that same mapping, which starts at `p`.
pub proof fn original_position_round_trip(sm: SourceMap, s: usize, p: Position, k: int)
    requires
        0 <= k < sm.mapping_seq().len(),
        sm.mapping_seq()[k].source_index == Some(s),
        sm.mapping_seq()[k].original == Some(p),
        forall|a: int, b: int|
            0 <= a < b < sm.mapping_seq().len() ==> #[trigger] sm.mapping_seq()[a].generated
                != #[trigger] sm.mapping_seq()[b].generated,
    ensures
        sm.original_lookup(s, p) matches Some(i) && 0 <= i < sm.mapping_seq().len()
            && sm.generated_lookup(sm.mapping_seq()[i].generated) == Some(i)
            && sm.mapping_seq()[i].source_index == Some(s) && sm.mapping_seq()[i].original == Some(p),
{
    exact_original_position_is_found(sm, s, p, k);
    let i = sm.original_lookup(s, p)->0;
    let g = sm.mapping_seq()[i].generated;
    exact_generated_position_is_found(sm, g, i);
    let j = sm.generated_lookup(g)->0;
    if j != i {
        if j < i {
            assert(sm.mapping_seq()[j].generated != sm.mapping_seq()[i].generated);
        } else {
            assert(sm.mapping_seq()[i].generated != sm.mapping_seq()[j].generated);
        }
    }
}

/// An inline source map reads back: a data URL carrying the base64 of a
/// text's UTF-8 bytes, after either accepted prefix, decodes to that text.
pub proof fn data_url_round_trip(url: &str, json: Seq<char>, r: Result<String, SourceMapError>)
    requires
        url@ == "data:application/json;base64,"@ + ascii_text(base64_encode(encode_utf8(json)))
            || url@ == "data:;base64,"@ + ascii_text(base64_encode(encode_utf8(json))),
        data_url_outcome(url, r),
    ensures
        r matches Ok(t) && t@ == json,
{
    broadcast use vstd::utf8::encode_utf8_valid_utf8, vstd::utf8::encode_utf8_decode_utf8;

    reveal_strlit("data:application/json;base64,");
    reveal_strlit("data:;base64,");
    let p1 = "data:application/json;base64,"@;
    let p2 = "data:;base64,"@;
    let bytes = encode_utf8(json);
    let text = ascii_text(base64_encode(bytes));
    lemma_encoding_ascii(bytes);
    lemma_ascii_text(base64_encode(bytes));
    base64_round_trip(bytes);
    if url@ == p1 + text {
        assert(url@.take(p1.len() as int) =~= p1);
        assert(url@.skip(p1.len() as int) =~= text);
    } else {
        assert(url@[5] == ';');
        assert(!has_prefix(url@, p1)) by {
            if p1.len() <= url@.len() {
                assert(url@.take(p1.len() as int)[5] == url@[5]);
                assert(p1[5] == 'a');
            }
        }
        assert(url@.take(p2.len() as int) =~= p2);
        assert(url@.skip(p2.len() as int) =~= text);
    }
}

/// A match found among names is one of them.
proof fn lemma_first_match_sound(xs: Seq<Seq<char>>, t: Seq<char>)
    ensures
        first_match(xs, t) matches Some(j) ==> 0 <= j < xs.len() && xs[j] == t,
    decreases xs.len(),
{
    if xs.len() > 0 {
        lemma_first_match_sound(xs.drop_last(), t);
    }
}

/// Among distinct names, a name is found at its own place.
proof fn lemma_first_match_distinct(xs: Seq<Seq<char>>, i: int)
    requires
        0 <= i < xs.len(),
        forall|a: int, b: int| 0 <= a < b < xs.len() ==> #[trigger] xs[a] != #[trigger] xs[b],
    ensures
        first_match(xs, xs[i]) == Some(i),
    decreases xs.len(),
{
    let d = xs.drop_last();
    if i < xs.len() - 1 {
        assert(d[i] == xs[i]);
        lemma_first_match_distinct(d, i);
    } else {
        lemma_first_match_sound(d, xs[i]);
        if first_match(d, xs[i]) is Some {
            let j = first_match(d, xs[i])->0;
            assert(d[j] == xs[j]);
        }
    }
}

/// Looking a mapping's original position up and back, through the public
/// lookups, gives it again: in a map without a source root whose sources
/// are distinct and whose mappings start at distinct generated positions,
/// the mapping's source name resolves to its source, the lookup of its
/// original position lands on a mapping whose generated position maps back
/// to that source and original position.
pub proof fn source_position_round_trip(sm: SourceMap, k: int)
    requires
        sm.source_root is None,
        forall|a: int, b: int|
            0 <= a < b < sm.sources@.len() ==> #[trigger] sm.sources@[a]@ != #[trigger] sm.sources@[b]@,
        forall|a: int, b: int|
            0 <= a < b < sm.mapping_seq().len() ==> #[trigger] sm.mapping_seq()[a].generated
                != #[trigger] sm.mapping_seq()[b].generated,
        0 <= k < sm.mapping_seq().len(),
        sm.mapping_seq()[k].source_index matches Some(s) && s < sm.sources@.len(),
        sm.mapping_seq()[k].original is Some,
    ensures
        ({
            let s = sm.mapping_seq()[k].source_index->0;
            let o = sm.mapping_seq()[k].original->0;
            &&& sm.resolved(sm.sources@[s as int]@) == Some(s as int)
            &&& sm.original_lookup(s, o) matches Some(i) && 0 <= i < sm.mapping_seq().len() && {
                let g = sm.mapping_seq()[i].generated;
                &&& sm.original_found(g)
                &&& forall|loc: OriginalLocation| #[trigger]
                    sm.original_location_at(g, loc) ==> loc.source@ == sm.sources@[s as int]@
                        && loc.position == o
            }
        }),
{
    let s = sm.mapping_seq()[k].source_index->0;
    let o = sm.mapping_seq()[k].original->0;
    let names = string_views(sm.sources@);
    assert forall|a: int, b: int| 0 <= a < b < names.len() implies #[trigger] names[a] != #[trigger] names[b] by {
        assert(names[a] == sm.sources@[a]@);
        assert(names[b] == sm.sources@[b]@);
    }
    lemma_first_match_distinct(names, s as int);
    assert(names[s as int] == sm.sources@[s as int]@);
    original_position_round_trip(sm, s, o, k);
}

/// The last component of `dir/name` is `name`, when `name` has no `/`.
proof fn lemma_file_name_of_path(dir: Seq<char>, name: Seq<char>)
    requires
        forall|k: int| 0 <= k < name.len() ==> name[k] != '/',
    ensures
        file_name(dir + seq!['/'] + name) == name,
    decreases name.len(),
{
    let x = dir + seq!['/'] + name;
    if name.len() == 0 {
        assert(x.last() == '/');
    } else {
        assert(x.drop_last() =~= dir + seq!['/'] + name.drop_last());
        lemma_file_name_of_path(dir, name.drop_last());
        assert(x.last() == name.last());
        assert(name.drop_last().push(name.last()) =~= name);
    }
}

/// A path whose last component is `name` (with no `/`) is `name` itself or
/// ends in `/name`.
proof fn lemma_file_name_shape(x: Seq<char>, name: Seq<char>)
    requires
        file_name(x) == name,
        forall|k: int| 0 <= k < name.len() ==> name[k] != '/',
    ensures
        x == name || exists|p: Seq<char>| x == p + seq!['/'] + name,
    decreases x.len(),
{
    if x.len() == 0 {
    } else if x.last() == '/' {
        assert(x =~= x.drop_last() + seq!['/'] + name);
    } else {
        let f = file_name(x.drop_last());
        assert(name == f.push(x.last()));
        assert(name.drop_last() =~= f);
        lemma_file_name_shape(x.drop_last(), name.drop_last());
        if x.drop_last() == name.drop_last() {
            assert(x =~= name);
        } else {
            let p = choose|p: Seq<char>| x.drop_last() == p + seq!['/'] + name.drop_last();
            assert(name =~= name.drop_last().push(x.last()));
            assert(x =~= x.drop_last().push(x.last()));
            assert((p + seq!['/'] + name.drop_last()).push(x.last()) =~= p + seq!['/'] + name);
            assert(x =~= p + seq!['/'] + name);
        }
    }
}

/// A name listed once is found at its place.
proof fn lemma_first_match_unique(xs: Seq<Seq<char>>, t: Seq<char>, i: int)
    requires
        0 <= i < xs.len(),
        xs[i] == t,
        forall|j: int| 0 <= j < xs.len() && j != i ==> xs[j] != t,
    ensures
        first_match(xs, t) == Some(i),
    decreases xs.len(),
{
    let d = xs.drop_last();
    lemma_first_match_sound(d, t);
    if i < xs.len() - 1 {
        assert forall|j: int| 0 <= j < d.len() && j != i implies d[j] != t by {
            assert(d[j] == xs[j]);
        }
        lemma_first_match_unique(d, t, i);
    } else {
        if first_match(d, t) is Some {
            let j = first_match(d, t)->0;
            assert(d[j] == xs[j]);
        }
    }
}

/// A source is found by its bare file name: in a map without a source
/// root, when source `i` is `dir/name` (`name` without `/`) and no other
/// source is `name` or ends in `/name`, looking `name` up gives `i`.
pub proof fn source_found_by_file_name(sm: SourceMap, i: int, dir: Seq<char>, name: Seq<char>)
    requires
        sm.source_root is None,
        0 <= i < sm.sources@.len(),
        sm.sources@[i]@ == dir + seq!['/'] + name,
        forall|k: int| 0 <= k < name.len() ==> name[k] != '/',
        forall|j: int|
            0 <= j < sm.sources@.len() && j != i ==> #[trigger] sm.sources@[j]@ != name && forall|p: Seq<char>|
                sm.sources@[j]@ != p + seq!['/'] + name,
    ensures
        sm.resolved(name) == Some(i),
{
    let views = string_views(sm.sources@);
    lemma_first_match_sound(views, name);
    if first_match(views, name) is Some {
        let j = first_match(views, name)->0;
        assert(views[j] == sm.sources@[j]@);
        assert((dir + seq!['/'] + name).len() > name.len());
    }
    let bases = views.map_values(|x: Seq<char>| file_name(x));
    lemma_file_name_of_path(dir, name);
    lemma_file_name_of_path(Seq::empty(), name);
    assert(Seq::<char>::empty() + seq!['/'] + name =~= seq!['/'] + name);
    assert(file_name(name) == name) by {
        lemma_file_name_no_slash(name);
    }
    assert(bases[i] == name);
    assert forall|j: int| 0 <= j < bases.len() && j != i implies bases[j] != name by {
        assert(bases[j] == file_name(sm.sources@[j]@));
        if file_name(sm.sources@[j]@) == name {
            lemma_file_name_shape(sm.sources@[j]@, name);
            assert(sm.sources@[j]@ != name);
        }
    }
    lemma_first_match_unique(bases, name, i);
}

/// A name without `/` is its own last component.
proof fn lemma_file_name_no_slash(name: Seq<char>)
    requires
        forall|k: int| 0 <= k < name.len() ==> name[k] != '/',
    ensures
        file_name(name) == name,
    decreases name.len(),
{
    if name.len() > 0 {
        lemma_file_name_no_slash(name.drop_last());
        assert(name.drop_last().push(name.last()) =~= name);
    }
}

} // verus!
