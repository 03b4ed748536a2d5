//! Canonical CBOR primitives for the wire format: the one-byte-to-nine-byte
//! item head (major type + argument), unsigned and negative integers, byte
//! strings, text strings, arrays, maps and simple values.
//!
//! Spec-level encoders return the exact byte sequence; spec-level parsers
//! consume from the front of a sequence and return the value together with
//! the number of bytes consumed. Each parser comes with an inversion lemma:
//! parsing an encoding (followed by anything) yields the encoded value back.

use vstd::prelude::*;

verus! {

pub const MAJOR_UINT: u8 = 0;
pub const MAJOR_NINT: u8 = 1;
pub const MAJOR_BSTR: u8 = 2;
pub const MAJOR_TSTR: u8 = 3;
pub const MAJOR_ARRAY: u8 = 4;
pub const MAJOR_MAP: u8 = 5;
pub const MAJOR_SIMPLE: u8 = 7;

/// Canonical (shortest-form) encoding of an item head.
#[verifier::opaque]
pub open spec fn enc_head(major: u8, n: u64) -> Seq<u8> {
    let m = (major as int) * 32;
    if n < 24 {
        seq![(m + n as int) as u8]
    } else if n < 256 {
        seq![(m + 24) as u8, n as u8]
    } else if n < 65536 {
        seq![(m + 25) as u8, (n as int / 256) as u8, (n as int % 256) as u8]
    } else if n < 4294967296 {
        seq![
            (m + 26) as u8,
            (n as int / 16777216) as u8,
            ((n as int / 65536) % 256) as u8,
            ((n as int / 256) % 256) as u8,
            (n as int % 256) as u8,
        ]
    } else {
        seq![
            (m + 27) as u8,
            (n as int / 72057594037927936) as u8,
            ((n as int / 281474976710656) % 256) as u8,
            ((n as int / 1099511627776) % 256) as u8,
            ((n as int / 4294967296) % 256) as u8,
            ((n as int / 16777216) % 256) as u8,
            ((n as int / 65536) % 256) as u8,
            ((n as int / 256) % 256) as u8,
            (n as int % 256) as u8,
        ]
    }
}

/// Parses an item head from the front of `s`: major type, argument value,
/// bytes consumed.
#[verifier::opaque]
pub open spec fn parse_head(s: Seq<u8>) -> Option<(u8, u64, int)> {
    if s.len() < 1 {
        None
    } else {
        let ib = s[0];
        let major = ib / 32;
        let ai = ib % 32;
        if ai < 24 {
            Some((major, ai as u64, 1))
        } else if ai == 24 {
            if s.len() >= 2 {
                Some((major, s[1] as u64, 2))
            } else {
                None
            }
        } else if ai == 25 {
            if s.len() >= 3 {
                Some((major, (s[1] as int * 256 + s[2] as int) as u64, 3))
            } else {
                None
            }
        } else if ai == 26 {
            if s.len() >= 5 {
                Some((
                    major,
                    (s[1] as int * 16777216 + s[2] as int * 65536 + s[3] as int * 256
                        + s[4] as int) as u64,
                    5,
                ))
            } else {
                None
            }
        } else if ai == 27 {
            if s.len() >= 9 {
                Some((
                    major,
                    (s[1] as int * 72057594037927936 + s[2] as int * 281474976710656
                        + s[3] as int * 1099511627776 + s[4] as int * 4294967296
                        + s[5] as int * 16777216 + s[6] as int * 65536 + s[7] as int * 256
                        + s[8] as int) as u64,
                    9,
                ))
            } else {
                None
            }
        } else {
            None
        }
    }
}

/// The head byte packs the major type in the top three bits and the
/// additional information in the low five.
proof fn lemma_head_byte(major: u8, ai: u8)
    requires
        major < 8,
        ai < 32,
    ensures
        ((major as int) * 32 + ai as int) as u8 as int / 32 == major as int,
        ((major as int) * 32 + ai as int) as u8 as int % 32 == ai as int,
{
    let x = (major as int) * 32 + ai as int;
    assert(0 <= x < 256);
    vstd::arithmetic::div_mod::lemma_fundamental_div_mod_converse(x, 32, major as int, ai as int);
}

/// Big-endian byte decomposition of a value below 2^16.
proof fn lemma_be2(n: int)
    requires
        0 <= n < 65536,
    ensures
        (n / 256) * 256 + n % 256 == n,
        0 <= n / 256 < 256,
        0 <= n % 256 < 256,
{
    vstd::arithmetic::div_mod::lemma_fundamental_div_mod(n, 256);
    vstd::arithmetic::div_mod::lemma_div_is_ordered(n, 65535, 256);
    vstd::arithmetic::div_mod::lemma_div_pos_is_pos(n, 256);
}

/// Big-endian byte decomposition of a value below 2^32.
proof fn lemma_be4(n: int)
    requires
        0 <= n < 4294967296,
    ensures
        (n / 16777216) * 16777216 + ((n / 65536) % 256) * 65536 + ((n / 256) % 256) * 256 + n % 256
            == n,
        0 <= n / 16777216 < 256,
{
    vstd::arithmetic::div_mod::lemma_fundamental_div_mod(n, 256);
    vstd::arithmetic::div_mod::lemma_fundamental_div_mod(n / 256, 256);
    vstd::arithmetic::div_mod::lemma_fundamental_div_mod(n / 65536, 256);
    vstd::arithmetic::div_mod::lemma_div_denominator(n, 256, 256);
    vstd::arithmetic::div_mod::lemma_div_denominator(n, 65536, 256);
    vstd::arithmetic::div_mod::lemma_div_is_ordered(n, 4294967295, 16777216);
    vstd::arithmetic::div_mod::lemma_div_pos_is_pos(n, 16777216);
}

/// Big-endian byte decomposition of a value below 2^64.
proof fn lemma_be8(n: int)
    requires
        0 <= n < 18446744073709551616,
    ensures
        (n / 72057594037927936) * 72057594037927936 + ((n / 281474976710656) % 256)
            * 281474976710656 + ((n / 1099511627776) % 256) * 1099511627776 + ((n / 4294967296)
            % 256) * 4294967296 + ((n / 16777216) % 256) * 16777216 + ((n / 65536) % 256) * 65536
            + ((n / 256) % 256) * 256 + n % 256 == n,
        0 <= n / 72057594037927936 < 256,
{
    vstd::arithmetic::div_mod::lemma_fundamental_div_mod(n, 256);
    vstd::arithmetic::div_mod::lemma_fundamental_div_mod(n / 256, 256);
    vstd::arithmetic::div_mod::lemma_fundamental_div_mod(n / 65536, 256);
    vstd::arithmetic::div_mod::lemma_fundamental_div_mod(n / 16777216, 256);
    vstd::arithmetic::div_mod::lemma_fundamental_div_mod(n / 4294967296, 256);
    vstd::arithmetic::div_mod::lemma_fundamental_div_mod(n / 1099511627776, 256);
    vstd::arithmetic::div_mod::lemma_fundamental_div_mod(n / 281474976710656, 256);
    vstd::arithmetic::div_mod::lemma_div_denominator(n, 256, 256);
    vstd::arithmetic::div_mod::lemma_div_denominator(n, 65536, 256);
    vstd::arithmetic::div_mod::lemma_div_denominator(n, 16777216, 256);
    vstd::arithmetic::div_mod::lemma_div_denominator(n, 4294967296, 256);
    vstd::arithmetic::div_mod::lemma_div_denominator(n, 1099511627776, 256);
    vstd::arithmetic::div_mod::lemma_div_denominator(n, 281474976710656, 256);
    vstd::arithmetic::div_mod::lemma_div_is_ordered(n, 18446744073709551615, 72057594037927936);
    vstd::arithmetic::div_mod::lemma_div_pos_is_pos(n, 72057594037927936);
}

/// The length of an encoded head, by range of the argument.
pub proof fn lemma_enc_head_len(major: u8, n: u64)
    ensures
        enc_head(major, n).len() == (if n < 24 {
            1int
        } else if n < 256 {
            2int
        } else if n < 65536 {
            3int
        } else if n < 4294967296 {
            5int
        } else {
            9int
        }),
{
    reveal(enc_head);
}

/// An empty input holds no item head.
pub proof fn lemma_parse_head_empty(s: Seq<u8>)
    requires
        s.len() == 0,
    ensures
        parse_head(s) is None,
{
    reveal(parse_head);
}

/// Parsing an encoded head, whatever follows it, returns the encoded pair.
pub proof fn lemma_parse_head(major: u8, n: u64, rest: Seq<u8>)
    requires
        major < 8,
    ensures
        parse_head(enc_head(major, n) + rest) == Some::<(u8, u64, int)>(
            (major, n, enc_head(major, n).len() as int),
        ),
{
    reveal(enc_head);
    reveal(parse_head);
    let e = enc_head(major, n);
    let s = e + rest;
    assert(s[0] == e[0]);
    if n < 24 {
        lemma_head_byte(major, n as u8);
    } else if n < 256 {
        assert(s[1] == e[1]);
        lemma_head_byte(major, 24);
    } else if n < 65536 {
        assert(s[1] == e[1] && s[2] == e[2]);
        lemma_head_byte(major, 25);
        lemma_be2(n as int);
    } else if n < 4294967296 {
        assert(s[1] == e[1] && s[2] == e[2] && s[3] == e[3] && s[4] == e[4]);
        lemma_head_byte(major, 26);
        lemma_be4(n as int);
    } else {
        assert(s[1] == e[1] && s[2] == e[2] && s[3] == e[3] && s[4] == e[4] && s[5] == e[5] && s[6]
            == e[6] && s[7] == e[7] && s[8] == e[8]);
        lemma_head_byte(major, 27);
        lemma_be8(n as int);
    }
}

/// Appends the canonical head for (major, n) to `out`.
pub fn write_head(out: &mut Vec<u8>, major: u8, n: u64)
    requires
        major < 8,
    ensures
        final(out)@ == old(out)@ + enc_head(major, n),
{
    proof {
        reveal(enc_head);
    }
    let m: u8 = major * 32;
    if n < 24 {
        out.push(m + (n as u8));
    } else if n < 256 {
        out.push(m + 24);
        out.push(n as u8);
    } else if n < 65536 {
        out.push(m + 25);
        out.push((n / 256) as u8);
        out.push((n % 256) as u8);
    } else if n < 4294967296 {
        out.push(m + 26);
        out.push((n / 16777216) as u8);
        out.push(((n / 65536) % 256) as u8);
        out.push(((n / 256) % 256) as u8);
        out.push((n % 256) as u8);
    } else {
        out.push(m + 27);
        out.push((n / 72057594037927936) as u8);
        out.push(((n / 281474976710656) % 256) as u8);
        out.push(((n / 1099511627776) % 256) as u8);
        out.push(((n / 4294967296) % 256) as u8);
        out.push(((n / 16777216) % 256) as u8);
        out.push(((n / 65536) % 256) as u8);
        out.push(((n / 256) % 256) as u8);
        out.push((n % 256) as u8);
    }
    proof {
        assert(out@ =~= old(out)@ + enc_head(major, n));
    }
}

/// Reads an item head at `pos`; returns major type, argument and the
/// position right after the head.
pub fn read_head(b: &Vec<u8>, pos: usize) -> (r: Option<(u8, u64, usize)>)
    requires
        pos <= b.len(),
    ensures
        match r {
            Some((major, n, end)) => {
                &&& pos < end <= b.len()
                &&& parse_head(b@.skip(pos as int)) == Some::<(u8, u64, int)>(
                    (major, n, end - pos),
                )
                &&& major < 8
            },
            None => parse_head(b@.skip(pos as int)) is None,
        },
{
    proof {
        reveal(parse_head);
    }
    let ghost s = b@.skip(pos as int);
    if pos >= b.len() {
        return None;
    }
    let ib = b[pos];
    proof {
        assert(s[0] == ib);
    }
    let major = ib / 32;
    let ai = ib % 32;
    if ai < 24 {
        Some((major, ai as u64, pos + 1))
    } else if ai == 24 {
        if b.len() - pos >= 2 {
            proof {
                assert(s[1] == b@[pos + 1]);
            }
            Some((major, b[pos + 1] as u64, pos + 2))
        } else {
            None
        }
    } else if ai == 25 {
        if b.len() - pos >= 3 {
            proof {
                assert(s[1] == b@[pos + 1] && s[2] == b@[pos + 2]);
            }
            let v: u64 = (b[pos + 1] as u64) * 256 + (b[pos + 2] as u64);
            Some((major, v, pos + 3))
        } else {
            None
        }
    } else if ai == 26 {
        if b.len() - pos >= 5 {
            proof {
                assert(s[1] == b@[pos + 1] && s[2] == b@[pos + 2] && s[3] == b@[pos + 3] && s[4]
                    == b@[pos + 4]);
            }
            let v: u64 = (b[pos + 1] as u64) * 16777216 + (b[pos + 2] as u64) * 65536 + (b[pos
                + 3] as u64) * 256 + (b[pos + 4] as u64);
            Some((major, v, pos + 5))
        } else {
            None
        }
    } else if ai == 27 {
        if b.len() - pos >= 9 {
            proof {
                assert(s[1] == b@[pos + 1] && s[2] == b@[pos + 2] && s[3] == b@[pos + 3] && s[4]
                    == b@[pos + 4] && s[5] == b@[pos + 5] && s[6] == b@[pos + 6] && s[7] == b@[pos
                    + 7] && s[8] == b@[pos + 8]);
            }
            let v: u64 = (b[pos + 1] as u64) * 72057594037927936 + (b[pos + 2] as u64)
                * 281474976710656 + (b[pos + 3] as u64) * 1099511627776 + (b[pos + 4] as u64)
                * 4294967296 + (b[pos + 5] as u64) * 16777216 + (b[pos + 6] as u64) * 65536 + (b[pos
                + 7] as u64) * 256 + (b[pos + 8] as u64);
            Some((major, v, pos + 9))
        } else {
            None
        }
    } else {
        None
    }
}


/// Encoding of an unsigned integer item.
pub open spec fn enc_uint(n: u64) -> Seq<u8> {
    enc_head(MAJOR_UINT, n)
}

/// Encoding of a signed integer item (major type 0 or 1).
pub open spec fn enc_int(code: i64) -> Seq<u8> {
    if code < 0 {
        enc_head(MAJOR_NINT, (-1 - code as int) as u64)
    } else {
        enc_head(MAJOR_UINT, code as u64)
    }
}

/// Encoding of a byte string item.
pub open spec fn enc_bytes(b: Seq<u8>) -> Seq<u8>
    recommends
        b.len() < 18446744073709551616,
{
    enc_head(MAJOR_BSTR, b.len() as u64) + b
}

/// Encoding of a text string item; the argument is its UTF-8 bytes.
pub open spec fn enc_text(b: Seq<u8>) -> Seq<u8>
    recommends
        b.len() < 18446744073709551616,
{
    enc_head(MAJOR_TSTR, b.len() as u64) + b
}

/// Encoding of an array head announcing `c` items.
pub open spec fn enc_array_head(c: u64) -> Seq<u8> {
    enc_head(MAJOR_ARRAY, c)
}

/// Encoding of a map head announcing `c` key/value pairs.
pub open spec fn enc_map_head(c: u64) -> Seq<u8> {
    enc_head(MAJOR_MAP, c)
}

/// Encoding of a boolean simple value.
pub open spec fn enc_bool(v: bool) -> Seq<u8> {
    if v {
        seq![245u8]
    } else {
        seq![244u8]
    }
}

/// Encoding of the null simple value.
pub open spec fn enc_null() -> Seq<u8> {
    seq![246u8]
}

pub open spec fn parse_uint(s: Seq<u8>) -> Option<(u64, int)> {
    match parse_head(s) {
        Some((major, n, k)) => if major == MAJOR_UINT {
            Some((n, k))
        } else {
            None
        },
        None => None,
    }
}

pub open spec fn parse_int(s: Seq<u8>) -> Option<(i64, int)> {
    match parse_head(s) {
        Some((major, n, k)) => if major == MAJOR_UINT && n <= 9223372036854775807 {
            Some((n as i64, k))
        } else if major == MAJOR_NINT && n <= 9223372036854775807 {
            Some(((-1 - n as int) as i64, k))
        } else {
            None
        },
        None => None,
    }
}

pub open spec fn parse_bytes(s: Seq<u8>) -> Option<(Seq<u8>, int)> {
    match parse_head(s) {
        Some((major, n, k)) => if major == MAJOR_BSTR && k + n <= s.len() {
            Some((s.subrange(k, k + n as int), k + n as int))
        } else {
            None
        },
        None => None,
    }
}

pub open spec fn parse_text(s: Seq<u8>) -> Option<(Seq<u8>, int)> {
    match parse_head(s) {
        Some((major, n, k)) => if major == MAJOR_TSTR && k + n <= s.len() {
            Some((s.subrange(k, k + n as int), k + n as int))
        } else {
            None
        },
        None => None,
    }
}

pub open spec fn parse_array_head(s: Seq<u8>) -> Option<(u64, int)> {
    match parse_head(s) {
        Some((major, n, k)) => if major == MAJOR_ARRAY {
            Some((n, k))
        } else {
            None
        },
        None => None,
    }
}

pub open spec fn parse_map_head(s: Seq<u8>) -> Option<(u64, int)> {
    match parse_head(s) {
        Some((major, n, k)) => if major == MAJOR_MAP {
            Some((n, k))
        } else {
            None
        },
        None => None,
    }
}

pub open spec fn parse_bool(s: Seq<u8>) -> Option<(bool, int)> {
    if s.len() >= 1 && s[0] == 245 {
        Some((true, 1))
    } else if s.len() >= 1 && s[0] == 244 {
        Some((false, 1))
    } else {
        None
    }
}

pub open spec fn parse_null(s: Seq<u8>) -> Option<int> {
    if s.len() >= 1 && s[0] == 246 {
        Some(1)
    } else {
        None
    }
}

pub proof fn lemma_parse_uint(n: u64, rest: Seq<u8>)
    ensures
        parse_uint(enc_uint(n) + rest) == Some::<(u64, int)>((n, enc_uint(n).len() as int)),
{
    lemma_parse_head(MAJOR_UINT, n, rest);
}

pub proof fn lemma_parse_int(code: i64, rest: Seq<u8>)
    ensures
        parse_int(enc_int(code) + rest) == Some::<(i64, int)>((code, enc_int(code).len() as int)),
{
    if code < 0 {
        lemma_parse_head(MAJOR_NINT, (-1 - code as int) as u64, rest);
    } else {
        lemma_parse_head(MAJOR_UINT, code as u64, rest);
    }
}

pub proof fn lemma_parse_bytes(b: Seq<u8>, rest: Seq<u8>)
    requires
        b.len() < 18446744073709551616,
    ensures
        parse_bytes(enc_bytes(b) + rest) == Some::<(Seq<u8>, int)>(
            (b, enc_bytes(b).len() as int),
        ),
{
    let h = enc_head(MAJOR_BSTR, b.len() as u64);
    let s = enc_bytes(b) + rest;
    assert(s =~= h + (b + rest));
    lemma_parse_head(MAJOR_BSTR, b.len() as u64, b + rest);
    let k = h.len() as int;
    assert(s.subrange(k, k + b.len() as int) =~= b);
}

pub proof fn lemma_parse_text(b: Seq<u8>, rest: Seq<u8>)
    requires
        b.len() < 18446744073709551616,
    ensures
        parse_text(enc_text(b) + rest) == Some::<(Seq<u8>, int)>((b, enc_text(b).len() as int)),
{
    let h = enc_head(MAJOR_TSTR, b.len() as u64);
    let s = enc_text(b) + rest;
    assert(s =~= h + (b + rest));
    lemma_parse_head(MAJOR_TSTR, b.len() as u64, b + rest);
    let k = h.len() as int;
    assert(s.subrange(k, k + b.len() as int) =~= b);
}

pub proof fn lemma_parse_array_head(c: u64, rest: Seq<u8>)
    ensures
        parse_array_head(enc_array_head(c) + rest) == Some::<(u64, int)>(
            (c, enc_array_head(c).len() as int),
        ),
{
    lemma_parse_head(MAJOR_ARRAY, c, rest);
}

pub proof fn lemma_parse_map_head(c: u64, rest: Seq<u8>)
    ensures
        parse_map_head(enc_map_head(c) + rest) == Some::<(u64, int)>(
            (c, enc_map_head(c).len() as int),
        ),
{
    lemma_parse_head(MAJOR_MAP, c, rest);
}

pub proof fn lemma_parse_bool(v: bool, rest: Seq<u8>)
    ensures
        parse_bool(enc_bool(v) + rest) == Some::<(bool, int)>((v, 1)),
{
}

pub proof fn lemma_parse_null(rest: Seq<u8>)
    ensures
        parse_null(enc_null() + rest) == Some(1int),
{
}

/// Appends `v@.subrange(from, to)` to `out`.
pub fn push_range(out: &mut Vec<u8>, v: &Vec<u8>, from: usize, to: usize)
    requires
        from <= to <= v.len(),
    ensures
        final(out)@ == old(out)@ + v@.subrange(from as int, to as int),
{
    let mut i: usize = from;
    while i < to
        invariant
            from <= i <= to <= v.len(),
            out@ == old(out)@ + v@.subrange(from as int, i as int),
        decreases to - i,
    {
        out.push(v[i]);
        i = i + 1;
        proof {
            assert(out@ =~= old(out)@ + v@.subrange(from as int, i as int));
        }
    }
}

/// Appends all of `v` to `out`.
pub fn push_all(out: &mut Vec<u8>, v: &Vec<u8>)
    ensures
        final(out)@ == old(out)@ + v@,
{
    push_range(out, v, 0, v.len());
    proof {
        assert(v@.subrange(0, v.len() as int) =~= v@);
    }
}

/// Appends the encoding of an unsigned integer item.
pub fn write_uint(out: &mut Vec<u8>, n: u64)
    ensures
        final(out)@ == old(out)@ + enc_uint(n),
{
    write_head(out, MAJOR_UINT, n);
}

/// Appends the encoding of a signed integer item.
pub fn write_int(out: &mut Vec<u8>, code: i64)
    ensures
        final(out)@ == old(out)@ + enc_int(code),
{
    if code < 0 {
        let m: u64 = (-1 - code) as u64;
        write_head(out, MAJOR_NINT, m);
    } else {
        write_head(out, MAJOR_UINT, code as u64);
    }
}

/// Appends the encoding of a byte string item.
pub fn write_bytes(out: &mut Vec<u8>, b: &Vec<u8>)
    ensures
        final(out)@ == old(out)@ + enc_bytes(b@),
{
    write_head(out, MAJOR_BSTR, b.len() as u64);
    push_all(out, b);
}

/// Appends the encoding of a text string item given as UTF-8 bytes.
pub fn write_text(out: &mut Vec<u8>, b: &Vec<u8>)
    ensures
        final(out)@ == old(out)@ + enc_text(b@),
{
    write_head(out, MAJOR_TSTR, b.len() as u64);
    push_all(out, b);
}

/// Appends an array head announcing `c` items.
pub fn write_array_head(out: &mut Vec<u8>, c: u64)
    ensures
        final(out)@ == old(out)@ + enc_array_head(c),
{
    write_head(out, MAJOR_ARRAY, c);
}

/// Appends a map head announcing `c` pairs.
pub fn write_map_head(out: &mut Vec<u8>, c: u64)
    ensures
        final(out)@ == old(out)@ + enc_map_head(c),
{
    write_head(out, MAJOR_MAP, c);
}

/// Appends a boolean simple value.
pub fn write_bool(out: &mut Vec<u8>, v: bool)
    ensures
        final(out)@ == old(out)@ + enc_bool(v),
{
    if v {
        out.push(245);
    } else {
        out.push(244);
    }
    proof {
        assert(out@ =~= old(out)@ + enc_bool(v));
    }
}

/// Appends the null simple value.
pub fn write_null(out: &mut Vec<u8>)
    ensures
        final(out)@ == old(out)@ + enc_null(),
{
    out.push(246);
    proof {
        assert(out@ =~= old(out)@ + enc_null());
    }
}

/// Reads an unsigned integer item at `pos`.
pub fn read_uint(b: &Vec<u8>, pos: usize) -> (r: Option<(u64, usize)>)
    requires
        pos <= b.len(),
    ensures
        match r {
            Some((n, end)) => pos < end <= b.len() && parse_uint(b@.skip(pos as int))
                == Some::<(u64, int)>((n, end - pos)),
            None => parse_uint(b@.skip(pos as int)) is None,
        },
{
    match read_head(b, pos) {
        Some((major, n, end)) => if major == MAJOR_UINT {
            Some((n, end))
        } else {
            None
        },
        None => None,
    }
}

/// Reads a signed integer item at `pos`.
pub fn read_int(b: &Vec<u8>, pos: usize) -> (r: Option<(i64, usize)>)
    requires
        pos <= b.len(),
    ensures
        match r {
            Some((code, end)) => pos < end <= b.len() && parse_int(b@.skip(pos as int))
                == Some::<(i64, int)>((code, end - pos)),
            None => parse_int(b@.skip(pos as int)) is None,
        },
{
    match read_head(b, pos) {
        Some((major, n, end)) => if major == MAJOR_UINT && n <= 9223372036854775807 {
            Some((n as i64, end))
        } else if major == MAJOR_NINT && n <= 9223372036854775807 {
            Some((-1 - (n as i64), end))
        } else {
            None
        },
        None => None,
    }
}

/// Copies `v[from..to]` into a fresh vector.
pub fn copy_range(v: &Vec<u8>, from: usize, to: usize) -> (r: Vec<u8>)
    requires
        from <= to <= v.len(),
    ensures
        r@ == v@.subrange(from as int, to as int),
{
    let mut out: Vec<u8> = Vec::new();
    push_range(&mut out, v, from, to);
    proof {
        assert(out@ =~= v@.subrange(from as int, to as int));
    }
    out
}

/// Reads a byte string item at `pos`.
pub fn read_bytes(b: &Vec<u8>, pos: usize) -> (r: Option<(Vec<u8>, usize)>)
    requires
        pos <= b.len(),
    ensures
        match r {
            Some((v, end)) => pos < end <= b.len() && parse_bytes(b@.skip(pos as int))
                == Some::<(Seq<u8>, int)>((v@, end - pos)),
            None => parse_bytes(b@.skip(pos as int)) is None,
        },
{
    let ghost s = b@.skip(pos as int);
    match read_head(b, pos) {
        Some((major, n, end)) => {
            if major == MAJOR_BSTR && n <= (b.len() - end) as u64 {
                let stop: usize = end + n as usize;
                let v = copy_range(b, end, stop);
                proof {
                    let k = (end - pos) as int;
                    assert(s.subrange(k, k + n as int) =~= b@.subrange(end as int, stop as int));
                }
                Some((v, stop))
            } else {
                None
            }
        },
        None => None,
    }
}

/// Reads a text string item at `pos`; returns its UTF-8 bytes.
pub fn read_text(b: &Vec<u8>, pos: usize) -> (r: Option<(Vec<u8>, usize)>)
    requires
        pos <= b.len(),
    ensures
        match r {
            Some((v, end)) => pos < end <= b.len() && parse_text(b@.skip(pos as int))
                == Some::<(Seq<u8>, int)>((v@, end - pos)),
            None => parse_text(b@.skip(pos as int)) is None,
        },
{
    let ghost s = b@.skip(pos as int);
    match read_head(b, pos) {
        Some((major, n, end)) => {
            if major == MAJOR_TSTR && n <= (b.len() - end) as u64 {
                let stop: usize = end + n as usize;
                let v = copy_range(b, end, stop);
                proof {
                    let k = (end - pos) as int;
                    assert(s.subrange(k, k + n as int) =~= b@.subrange(end as int, stop as int));
                }
                Some((v, stop))
            } else {
                None
            }
        },
        None => None,
    }
}

/// Reads an array head at `pos`.
pub fn read_array_head(b: &Vec<u8>, pos: usize) -> (r: Option<(u64, usize)>)
    requires
        pos <= b.len(),
    ensures
        match r {
            Some((c, end)) => pos < end <= b.len() && parse_array_head(b@.skip(pos as int))
                == Some::<(u64, int)>((c, end - pos)),
            None => parse_array_head(b@.skip(pos as int)) is None,
        },
{
    match read_head(b, pos) {
        Some((major, n, end)) => if major == MAJOR_ARRAY {
            Some((n, end))
        } else {
            None
        },
        None => None,
    }
}

/// Reads a map head at `pos`.
pub fn read_map_head(b: &Vec<u8>, pos: usize) -> (r: Option<(u64, usize)>)
    requires
        pos <= b.len(),
    ensures
        match r {
            Some((c, end)) => pos < end <= b.len() && parse_map_head(b@.skip(pos as int))
                == Some::<(u64, int)>((c, end - pos)),
            None => parse_map_head(b@.skip(pos as int)) is None,
        },
{
    match read_head(b, pos) {
        Some((major, n, end)) => if major == MAJOR_MAP {
            Some((n, end))
        } else {
            None
        },
        None => None,
    }
}

/// Reads a boolean simple value at `pos`.
pub fn read_bool(b: &Vec<u8>, pos: usize) -> (r: Option<(bool, usize)>)
    requires
        pos <= b.len(),
    ensures
        match r {
            Some((v, end)) => pos < end <= b.len() && parse_bool(b@.skip(pos as int))
                == Some::<(bool, int)>((v, end - pos)),
            None => parse_bool(b@.skip(pos as int)) is None,
        },
{
    let ghost s = b@.skip(pos as int);
    if pos < b.len() {
        proof {
            assert(s[0] == b@[pos as int]);
        }
        if b[pos] == 245 {
            Some((true, pos + 1))
        } else if b[pos] == 244 {
            Some((false, pos + 1))
        } else {
            None
        }
    } else {
        None
    }
}

/// Reads the null simple value at `pos`.
pub fn read_null(b: &Vec<u8>, pos: usize) -> (r: Option<usize>)
    requires
        pos <= b.len(),
    ensures
        match r {
            Some(end) => pos < end <= b.len() && parse_null(b@.skip(pos as int)) == Some(
                (end - pos) as int,
            ),
            None => parse_null(b@.skip(pos as int)) is None,
        },
{
    let ghost s = b@.skip(pos as int);
    if pos < b.len() {
        proof {
            assert(s[0] == b@[pos as int]);
        }
        if b[pos] == 246 {
            Some(pos + 1)
        } else {
            None
        }
    } else {
        None
    }
}

} // verus!
