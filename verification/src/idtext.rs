//! The textual form of an identity: the letter `m`, then the base32
//! encoding (RFC 4648 alphabet, lower case, no padding) of the binary
//! form followed by its big-endian CRC-16 checksum. Decoding is case
//! insensitive and rejects bad lengths, bad checksums and unknown tags.

use vstd::prelude::*;
use vstd::string::StringSliceAdditionalSpecFns;

use crate::crypto::ascii_to_string;
use crate::error::ManyError;
use crate::identity::Identity;
use crate::identity::IdentityV;

verus! {

// ------------------------------------------------------------------
// CRC-16 (polynomial 0x1021, zero initial value).
// ------------------------------------------------------------------

/// One shift step of the CRC register.
pub open spec fn crc16_shift(crc: u16) -> u16 {
    if crc & 0x8000 != 0 {
        (crc << 1) ^ 0x1021
    } else {
        crc << 1
    }
}

/// `n` shift steps.
pub open spec fn crc16_bits(crc: u16, n: nat) -> u16
    decreases n,
{
    if n == 0 {
        crc
    } else {
        crc16_bits(crc16_shift(crc), (n - 1) as nat)
    }
}

/// Folds one byte into the CRC register.
pub open spec fn crc16_step(crc: u16, b: u8) -> u16 {
    crc16_bits(crc ^ ((b as u16) << 8), 8)
}

/// Folds a byte sequence into the CRC register.
pub open spec fn crc16_acc(crc: u16, s: Seq<u8>) -> u16
    decreases s.len(),
{
    if s.len() == 0 {
        crc
    } else {
        crc16_acc(crc16_step(crc, s[0]), s.skip(1))
    }
}

/// The CRC-16 checksum of a byte sequence.
pub open spec fn crc16(s: Seq<u8>) -> u16 {
    crc16_acc(0, s)
}

/// Computes the CRC-16 checksum.
pub fn crc16_exec(v: &Vec<u8>) -> (r: u16)
    ensures
        r == crc16(v@),
{
    let mut crc: u16 = 0;
    let mut i: usize = 0;
    proof {
        assert(v@.skip(0) =~= v@);
    }
    while i < v.len()
        invariant
            i <= v.len(),
            crc16(v@) == crc16_acc(crc, v@.skip(i as int)),
        decreases v.len() - i,
    {
        let b = v[i];
        let mut c: u16 = crc ^ ((b as u16) << 8u16);
        let mut j: usize = 0;
        while j < 8
            invariant
                j <= 8,
                crc16_step(crc, b) == crc16_bits(c, (8 - j) as nat),
            decreases 8 - j,
        {
            c = if c & 0x8000 != 0 {
                (c << 1u16) ^ 0x1021
            } else {
                c << 1u16
            };
            j = j + 1;
        }
        proof {
            assert(v@.skip(i as int)[0] == v@[i as int]);
            assert(v@.skip(i as int).skip(1) =~= v@.skip(i + 1));
        }
        crc = c;
        i = i + 1;
    }
    proof {
        assert(v@.skip(v@.len() as int) =~= Seq::<u8>::empty());
    }
    crc
}

// ------------------------------------------------------------------
// Base32 (RFC 4648 alphabet, lower case, no padding).
// ------------------------------------------------------------------

/// The alphabet: values 0..25 map to 'a'..'z', 26..31 to '2'..'7'.
pub open spec fn b32_alpha(v: u8) -> u8
    recommends
        v < 32,
{
    if v < 26 {
        (97 + v) as u8
    } else {
        (24 + v) as u8
    }
}

/// Encoding of a full five-byte group as eight characters.
#[verifier::opaque]
pub open spec fn b32_g5(b0: u8, b1: u8, b2: u8, b3: u8, b4: u8) -> Seq<u8> {
    let x = b0 as int * 4294967296 + b1 as int * 16777216 + b2 as int * 65536 + b3 as int * 256
        + b4 as int;
    seq![
        b32_alpha(((x / 34359738368) % 32) as u8),
        b32_alpha(((x / 1073741824) % 32) as u8),
        b32_alpha(((x / 33554432) % 32) as u8),
        b32_alpha(((x / 1048576) % 32) as u8),
        b32_alpha(((x / 32768) % 32) as u8),
        b32_alpha(((x / 1024) % 32) as u8),
        b32_alpha(((x / 32) % 32) as u8),
        b32_alpha((x % 32) as u8),
    ]
}

/// Encoding of a final group of one to four bytes: the bits are padded
/// with zeros to a whole number of characters.
#[verifier::opaque]
pub open spec fn b32_tail(s: Seq<u8>) -> Seq<u8>
    recommends
        1 <= s.len() <= 4,
{
    let t0 = s[0];
    let t1 = if s.len() >= 2 { s[1] } else { 0u8 };
    let t2 = if s.len() >= 3 { s[2] } else { 0u8 };
    let t3 = if s.len() >= 4 { s[3] } else { 0u8 };
    if s.len() == 1 {
        let y = s[0] as int * 4;
        seq![b32_alpha(((y / 32) % 32) as u8), b32_alpha((y % 32) as u8)]
    } else if s.len() == 2 {
        let y = (s[0] as int * 256 + s[1] as int) * 16;
        seq![
            b32_alpha(((y / 32768) % 32) as u8),
            b32_alpha(((y / 1024) % 32) as u8),
            b32_alpha(((y / 32) % 32) as u8),
            b32_alpha((y % 32) as u8),
        ]
    } else if s.len() == 3 {
        let y = (s[0] as int * 65536 + s[1] as int * 256 + s[2] as int) * 2;
        seq![
            b32_alpha(((y / 1048576) % 32) as u8),
            b32_alpha(((y / 32768) % 32) as u8),
            b32_alpha(((y / 1024) % 32) as u8),
            b32_alpha(((y / 32) % 32) as u8),
            b32_alpha((y % 32) as u8),
        ]
    } else {
        let y = (s[0] as int * 16777216 + s[1] as int * 65536 + s[2] as int * 256 + s[3] as int)
            * 8;
        seq![
            b32_alpha(((y / 1073741824) % 32) as u8),
            b32_alpha(((y / 33554432) % 32) as u8),
            b32_alpha(((y / 1048576) % 32) as u8),
            b32_alpha(((y / 32768) % 32) as u8),
            b32_alpha(((y / 1024) % 32) as u8),
            b32_alpha(((y / 32) % 32) as u8),
            b32_alpha((y % 32) as u8),
        ]
    }
}

/// Base32 encoding of a byte sequence.
pub open spec fn b32_enc(s: Seq<u8>) -> Seq<u8>
    decreases s.len(),
{
    if s.len() == 0 {
        Seq::empty()
    } else if s.len() >= 5 {
        b32_g5(s[0], s[1], s[2], s[3], s[4]) + b32_enc(s.skip(5))
    } else {
        b32_tail(s)
    }
}

/// Encodes one full five-byte group.
fn enc_g5_exec(b0: u8, b1: u8, b2: u8, b3: u8, b4: u8) -> (r: Vec<u8>)
    ensures
        r@ == b32_g5(b0, b1, b2, b3, b4),
{
    proof {
        reveal(b32_g5);
    }
    let x: u64 = (b0 as u64) * 4294967296 + (b1 as u64) * 16777216 + (b2 as u64) * 65536 + (
    b3 as u64) * 256 + (b4 as u64);
    let mut out: Vec<u8> = Vec::new();
    out.push(alpha_exec(((x / 34359738368) % 32) as u8));
    out.push(alpha_exec(((x / 1073741824) % 32) as u8));
    out.push(alpha_exec(((x / 33554432) % 32) as u8));
    out.push(alpha_exec(((x / 1048576) % 32) as u8));
    out.push(alpha_exec(((x / 32768) % 32) as u8));
    out.push(alpha_exec(((x / 1024) % 32) as u8));
    out.push(alpha_exec(((x / 32) % 32) as u8));
    out.push(alpha_exec((x % 32) as u8));
    proof {
        assert(out@ =~= b32_g5(b0, b1, b2, b3, b4));
    }
    out
}

/// Encodes a final group of one to four bytes.
fn enc_tail_exec(t: &Vec<u8>) -> (r: Vec<u8>)
    requires
        1 <= t@.len() <= 4,
    ensures
        r@ == b32_tail(t@),
{
    proof {
        reveal(b32_tail);
    }
    let mut out: Vec<u8> = Vec::new();
    if t.len() == 1 {
        let y: u64 = (t[0] as u64) * 4;
        out.push(alpha_exec(((y / 32) % 32) as u8));
        out.push(alpha_exec((y % 32) as u8));
    } else if t.len() == 2 {
        let y: u64 = ((t[0] as u64) * 256 + (t[1] as u64)) * 16;
        out.push(alpha_exec(((y / 32768) % 32) as u8));
        out.push(alpha_exec(((y / 1024) % 32) as u8));
        out.push(alpha_exec(((y / 32) % 32) as u8));
        out.push(alpha_exec((y % 32) as u8));
    } else if t.len() == 3 {
        let y: u64 = ((t[0] as u64) * 65536 + (t[1] as u64) * 256 + (t[2] as u64)) * 2;
        out.push(alpha_exec(((y / 1048576) % 32) as u8));
        out.push(alpha_exec(((y / 32768) % 32) as u8));
        out.push(alpha_exec(((y / 1024) % 32) as u8));
        out.push(alpha_exec(((y / 32) % 32) as u8));
        out.push(alpha_exec((y % 32) as u8));
    } else {
        let y: u64 = ((t[0] as u64) * 16777216 + (t[1] as u64) * 65536 + (t[2] as u64) * 256 + (
        t[3] as u64)) * 8;
        out.push(alpha_exec(((y / 1073741824) % 32) as u8));
        out.push(alpha_exec(((y / 33554432) % 32) as u8));
        out.push(alpha_exec(((y / 1048576) % 32) as u8));
        out.push(alpha_exec(((y / 32768) % 32) as u8));
        out.push(alpha_exec(((y / 1024) % 32) as u8));
        out.push(alpha_exec(((y / 32) % 32) as u8));
        out.push(alpha_exec((y % 32) as u8));
    }
    proof {
        assert(out@ =~= b32_tail(t@));
    }
    out
}

/// Every byte of a base32 encoding is ASCII.
pub proof fn lemma_b32_enc_ascii(s: Seq<u8>)
    ensures
        forall|i: int| 0 <= i < b32_enc(s).len() ==> b32_enc(s)[i] < 128,
    decreases s.len(),
{
    reveal(b32_g5);
    reveal(b32_tail);
    if s.len() == 0 {
    } else if s.len() >= 5 {
        lemma_b32_enc_ascii(s.skip(5));
        assert forall|i: int| 0 <= i < b32_enc(s).len() implies b32_enc(s)[i] < 128 by {
            if i < 8 {
                assert(b32_enc(s)[i] == b32_g5(s[0], s[1], s[2], s[3], s[4])[i]);
            } else {
                assert(b32_enc(s)[i] == b32_enc(s.skip(5))[i - 8]);
            }
        }
    } else {
        assert forall|i: int| 0 <= i < b32_enc(s).len() implies b32_enc(s)[i] < 128 by {
            assert(b32_enc(s)[i] == b32_tail(s)[i]);
        }
    }
}

/// Base32-encodes a byte vector.
pub fn b32_encode(v: &Vec<u8>) -> (r: Vec<u8>)
    ensures
        r@ == b32_enc(v@),
{
    let mut out: Vec<u8> = Vec::new();
    let mut i: usize = 0;
    proof {
        assert(v@.skip(0) =~= v@);
        assert(Seq::<u8>::empty() + b32_enc(v@) =~= b32_enc(v@));
    }
    while v.len() - i >= 5
        invariant
            i <= v.len(),
            b32_enc(v@) == out@ + b32_enc(v@.skip(i as int)),
        decreases v.len() - i,
    {
        let ghost pre = out@;
        let g = enc_g5_exec(v[i], v[i + 1], v[i + 2], v[i + 3], v[i + 4]);
        crate::cbor::push_all(&mut out, &g);
        proof {
            let t = v@.skip(i as int);
            assert(t[0] == v@[i as int] && t[1] == v@[i + 1] && t[2] == v@[i + 2] && t[3] == v@[i
                + 3] && t[4] == v@[i + 4]);
            assert(t.skip(5) =~= v@.skip(i + 5));
            assert(b32_enc(t) == b32_g5(t[0], t[1], t[2], t[3], t[4]) + b32_enc(v@.skip(i + 5)));
            assert(pre + (b32_g5(t[0], t[1], t[2], t[3], t[4]) + b32_enc(v@.skip(i + 5))) =~= out@
                + b32_enc(v@.skip(i + 5)));
        }
        i = i + 5;
    }
    if v.len() - i > 0 {
        let ghost pre = out@;
        let t = crate::cbor::copy_range(v, i, v.len());
        let e = enc_tail_exec(&t);
        crate::cbor::push_all(&mut out, &e);
        proof {
            assert(t@ =~= v@.skip(i as int));
            assert(b32_enc(v@.skip(i as int)) == b32_tail(t@));
            assert(pre + b32_tail(t@) =~= out@);
        }
    } else {
        proof {
            assert(b32_enc(v@.skip(i as int)) =~= Seq::<u8>::empty());
            assert(out@ + Seq::<u8>::empty() =~= out@);
        }
    }
    out
}

/// The alphabet as executable code.
fn alpha_exec(v: u8) -> (r: u8)
    requires
        v < 32,
    ensures
        r == b32_alpha(v),
        r < 128,
{
    if v < 26 {
        97 + v
    } else {
        24 + v
    }
}

/// The value of one character, case insensitively; None outside the
/// alphabet.
pub open spec fn b32_val(c: u8) -> Option<u8> {
    if 97 <= c <= 122 {
        Some((c - 97) as u8)
    } else if 65 <= c <= 90 {
        Some((c - 65) as u8)
    } else if 50 <= c <= 55 {
        Some((c - 24) as u8)
    } else {
        None
    }
}

fn dec_char(c: u8) -> (r: Option<u8>)
    ensures
        r == b32_val(c),
        r matches Some(v) ==> v < 32,
{
    if 97 <= c && c <= 122 {
        Some(c - 97)
    } else if 65 <= c && c <= 90 {
        Some(c - 65)
    } else if 50 <= c && c <= 55 {
        Some(c - 24)
    } else {
        None
    }
}

/// Decoding of one full eight-character group into five bytes.
#[verifier::opaque]
pub open spec fn b32_dec_g8(s: Seq<u8>) -> Option<Seq<u8>>
    recommends
        s.len() == 8,
{
    if b32_val(s[0]) is Some && b32_val(s[1]) is Some && b32_val(s[2]) is Some && b32_val(
        s[3],
    ) is Some && b32_val(s[4]) is Some && b32_val(s[5]) is Some && b32_val(s[6]) is Some
        && b32_val(s[7]) is Some {
        let y = ((((((b32_val(s[0])->Some_0 as int * 32 + b32_val(s[1])->Some_0 as int) * 32
            + b32_val(s[2])->Some_0 as int) * 32 + b32_val(s[3])->Some_0 as int) * 32 + b32_val(
            s[4],
        )->Some_0 as int) * 32 + b32_val(s[5])->Some_0 as int) * 32 + b32_val(s[6])->Some_0 as int)
            * 32 + b32_val(s[7])->Some_0 as int;
        Some(
            seq![
                (y / 4294967296) as u8,
                ((y / 16777216) % 256) as u8,
                ((y / 65536) % 256) as u8,
                ((y / 256) % 256) as u8,
                (y % 256) as u8,
            ],
        )
    } else {
        None
    }
}

/// Decoding of a final group of two, four, five or seven characters.
#[verifier::opaque]
pub open spec fn b32_dec_tail(s: Seq<u8>) -> Option<Seq<u8>>
    recommends
        s.len() == 2 || s.len() == 4 || s.len() == 5 || s.len() == 7,
{
    if exists|k: int| 0 <= k < s.len() && b32_val(#[trigger] s[k]) is None {
        None
    } else if s.len() == 2 {
        let y = b32_val(s[0])->Some_0 as int * 32 + b32_val(s[1])->Some_0 as int;
        Some(seq![(y / 4) as u8])
    } else if s.len() == 4 {
        let y = ((b32_val(s[0])->Some_0 as int * 32 + b32_val(s[1])->Some_0 as int) * 32 + b32_val(
            s[2],
        )->Some_0 as int) * 32 + b32_val(s[3])->Some_0 as int;
        Some(seq![(y / 4096) as u8, ((y / 16) % 256) as u8])
    } else if s.len() == 5 {
        let y = (((b32_val(s[0])->Some_0 as int * 32 + b32_val(s[1])->Some_0 as int) * 32
            + b32_val(s[2])->Some_0 as int) * 32 + b32_val(s[3])->Some_0 as int) * 32 + b32_val(
            s[4],
        )->Some_0 as int;
        Some(seq![(y / 131072) as u8, ((y / 512) % 256) as u8, ((y / 2) % 256) as u8])
    } else {
        let y = (((((b32_val(s[0])->Some_0 as int * 32 + b32_val(s[1])->Some_0 as int) * 32
            + b32_val(s[2])->Some_0 as int) * 32 + b32_val(s[3])->Some_0 as int) * 32 + b32_val(
            s[4],
        )->Some_0 as int) * 32 + b32_val(s[5])->Some_0 as int) * 32 + b32_val(s[6])->Some_0 as int;
        Some(
            seq![
                (y / 134217728) as u8,
                ((y / 524288) % 256) as u8,
                ((y / 2048) % 256) as u8,
                ((y / 8) % 256) as u8,
            ],
        )
    }
}

/// Base32 decoding: full groups, then a final partial group. Rejects
/// characters outside the alphabet and the lengths one, three and six
/// (modulo eight), which no encoding produces.
pub open spec fn b32_dec(s: Seq<u8>) -> Option<Seq<u8>>
    decreases s.len(),
{
    if s.len() == 0 {
        Some(Seq::empty())
    } else if s.len() >= 8 {
        match b32_dec_g8(s.take(8)) {
            None => None,
            Some(g) => match b32_dec(s.skip(8)) {
                None => None,
                Some(rest) => Some(g + rest),
            },
        }
    } else if s.len() == 2 || s.len() == 4 || s.len() == 5 || s.len() == 7 {
        b32_dec_tail(s)
    } else {
        None
    }
}

/// Decodes a final partial group of two, four, five or seven
/// characters.
#[verifier::rlimit(100)]
#[verifier::spinoff_prover]
fn dec_tail_exec(t: &Vec<u8>) -> (r: Option<Vec<u8>>)
    requires
        t@.len() == 2 || t@.len() == 4 || t@.len() == 5 || t@.len() == 7,
    ensures
        match r {
            Some(o) => b32_dec_tail(t@) == Some(o@),
            None => b32_dec_tail(t@) is None,
        },
{
    proof {
        reveal(b32_dec_tail);
    }
    let mut out: Vec<u8> = Vec::new();
    let c0 = match dec_char(t[0]) {
        Some(c) => c as u64,
        None => {
            return None;
        },
    };
    let c1 = match dec_char(t[1]) {
        Some(c) => c as u64,
        None => {
            return None;
        },
    };
    if t.len() == 2 {
        let y: u64 = c0 * 32 + c1;
        out.push((y / 4) as u8);
        proof {
            assert(forall|k: int| 0 <= k < t@.len() ==> b32_val(#[trigger] t@[k]) is Some);
            assert(out@ =~= b32_dec_tail(t@)->Some_0);
        }
        return Some(out);
    }
    let c2 = match dec_char(t[2]) {
        Some(c) => c as u64,
        None => {
            return None;
        },
    };
    let c3 = match dec_char(t[3]) {
        Some(c) => c as u64,
        None => {
            return None;
        },
    };
    if t.len() == 4 {
        let y: u64 = ((c0 * 32 + c1) * 32 + c2) * 32 + c3;
        out.push((y / 4096) as u8);
        out.push(((y / 16) % 256) as u8);
        proof {
            assert(forall|k: int| 0 <= k < t@.len() ==> b32_val(#[trigger] t@[k]) is Some);
            assert(out@ =~= b32_dec_tail(t@)->Some_0);
        }
        return Some(out);
    }
    let c4 = match dec_char(t[4]) {
        Some(c) => c as u64,
        None => {
            return None;
        },
    };
    if t.len() == 5 {
        let y: u64 = (((c0 * 32 + c1) * 32 + c2) * 32 + c3) * 32 + c4;
        out.push((y / 131072) as u8);
        out.push(((y / 512) % 256) as u8);
        out.push(((y / 2) % 256) as u8);
        proof {
            assert(forall|k: int| 0 <= k < t@.len() ==> b32_val(#[trigger] t@[k]) is Some);
            assert(out@ =~= b32_dec_tail(t@)->Some_0);
        }
        return Some(out);
    }
    let c5 = match dec_char(t[5]) {
        Some(c) => c as u64,
        None => {
            return None;
        },
    };
    let c6 = match dec_char(t[6]) {
        Some(c) => c as u64,
        None => {
            return None;
        },
    };
    let y: u64 = (((((c0 * 32 + c1) * 32 + c2) * 32 + c3) * 32 + c4) * 32 + c5) * 32 + c6;
    out.push((y / 134217728) as u8);
    out.push(((y / 524288) % 256) as u8);
    out.push(((y / 2048) % 256) as u8);
    out.push(((y / 8) % 256) as u8);
    proof {
        assert(forall|k: int| 0 <= k < t@.len() ==> b32_val(#[trigger] t@[k]) is Some);
        assert(out@ =~= b32_dec_tail(t@)->Some_0);
    }
    Some(out)
}

/// Decodes one full eight-character group into five bytes.
#[verifier::rlimit(100)]
#[verifier::spinoff_prover]
fn dec_g8_exec(v: &Vec<u8>, i: usize) -> (r: Option<Vec<u8>>)
    requires
        i + 8 <= v@.len(),
    ensures
        match r {
            Some(o) => b32_dec_g8(v@.skip(i as int).take(8)) == Some(o@),
            None => b32_dec_g8(v@.skip(i as int).take(8)) is None,
        },
{
    let n = v.len();
    proof {
        reveal(b32_dec_g8);
        assert(n == v@.len());
    }
    let ghost t = v@.skip(i as int).take(8);
    proof {
        assert(t[0] == v@[i as int] && t[1] == v@[i + 1] && t[2] == v@[i + 2] && t[3] == v@[i + 3]
            && t[4] == v@[i + 4] && t[5] == v@[i + 5] && t[6] == v@[i + 6] && t[7] == v@[i + 7]);
    }
    let c0 = match dec_char(v[i]) {
        Some(c) => c as u64,
        None => {
            return None;
        },
    };
    let c1 = match dec_char(v[i + 1]) {
        Some(c) => c as u64,
        None => {
            return None;
        },
    };
    let c2 = match dec_char(v[i + 2]) {
        Some(c) => c as u64,
        None => {
            return None;
        },
    };
    let c3 = match dec_char(v[i + 3]) {
        Some(c) => c as u64,
        None => {
            return None;
        },
    };
    let c4 = match dec_char(v[i + 4]) {
        Some(c) => c as u64,
        None => {
            return None;
        },
    };
    let c5 = match dec_char(v[i + 5]) {
        Some(c) => c as u64,
        None => {
            return None;
        },
    };
    let c6 = match dec_char(v[i + 6]) {
        Some(c) => c as u64,
        None => {
            return None;
        },
    };
    let c7 = match dec_char(v[i + 7]) {
        Some(c) => c as u64,
        None => {
            return None;
        },
    };
    let x: u64 = ((((((c0 * 32 + c1) * 32 + c2) * 32 + c3) * 32 + c4) * 32 + c5) * 32 + c6) * 32
        + c7;
    let mut out: Vec<u8> = Vec::new();
    out.push((x / 4294967296) as u8);
    out.push(((x / 16777216) % 256) as u8);
    out.push(((x / 65536) % 256) as u8);
    out.push(((x / 256) % 256) as u8);
    out.push((x % 256) as u8);
    proof {
        assert(out@ =~= b32_dec_g8(t)->Some_0);
    }
    Some(out)
}

/// Base32-decodes a byte vector.
#[verifier::rlimit(100)]
#[verifier::spinoff_prover]
pub fn b32_decode(v: &Vec<u8>) -> (r: Option<Vec<u8>>)
    ensures
        match r {
            Some(o) => b32_dec(v@) == Some(o@),
            None => b32_dec(v@) is None,
        },
{
    let mut out: Vec<u8> = Vec::new();
    let mut i: usize = 0;
    proof {
        assert(v@.skip(0) =~= v@);
        match b32_dec(v@) {
            Some(rest) => {
                assert(Seq::<u8>::empty() + rest =~= rest);
            },
            None => {},
        }
    }
    while v.len() - i >= 8
        invariant
            i <= v.len(),
            match b32_dec(v@.skip(i as int)) {
                Some(rest) => b32_dec(v@) == Some(out@ + rest),
                None => b32_dec(v@) is None,
            },
        decreases v.len() - i,
    {
        let ghost t = v@.skip(i as int);
        let g = match dec_g8_exec(v, i) {
            Some(g) => g,
            None => {
                return None;
            },
        };
        let ghost pre = out@;
        crate::cbor::push_all(&mut out, &g);
        proof {
            assert(t.skip(8) =~= v@.skip(i + 8));
            match b32_dec(v@.skip(i + 8)) {
                Some(rest) => {
                    assert(b32_dec(t) == Some(g@ + rest));
                    assert(pre + (g@ + rest) =~= out@ + rest);
                },
                None => {
                    assert(b32_dec(t) is None);
                },
            }
        }
        i = i + 8;
    }
    let ghost t = v@.skip(i as int);
    let rem = v.len() - i;
    if rem == 0 {
        proof {
            assert(t.len() == 0);
            assert(out@ + Seq::<u8>::empty() =~= out@);
        }
        return Some(out);
    }
    if rem != 2 && rem != 4 && rem != 5 && rem != 7 {
        return None;
    }
    let tv = crate::cbor::copy_range(v, i, v.len());
    proof {
        assert(tv@ =~= t);
    }
    let tb = match dec_tail_exec(&tv) {
        Some(b) => b,
        None => {
            return None;
        },
    };
    let ghost pre = out@;
    crate::cbor::push_all(&mut out, &tb);
    proof {
        assert(b32_dec(t) == Some(tb@));
        assert(pre + tb@ =~= out@);
    }
    Some(out)
}

// ------------------------------------------------------------------
// Base32 round trip.
// ------------------------------------------------------------------

/// The alphabet is inverted exactly by the character values.
proof fn lemma_alpha_inv(v: u8)
    requires
        v < 32,
    ensures
        b32_val(b32_alpha(v)) == Some(v),
{
}

/// Decoding inverts the encoding of a full five-byte group.
#[verifier::rlimit(100)]
#[verifier::spinoff_prover]
proof fn lemma_g5_inv(b0: u8, b1: u8, b2: u8, b3: u8, b4: u8)
    ensures
        b32_dec_g8(b32_g5(b0, b1, b2, b3, b4)) == Some(seq![b0, b1, b2, b3, b4]),
        b32_g5(b0, b1, b2, b3, b4).len() == 8,
{
    reveal(b32_g5);
    reveal(b32_dec_g8);
    let x = b0 as int * 4294967296 + b1 as int * 16777216 + b2 as int * 65536 + b3 as int * 256
        + b4 as int;
    let xu = x as u64;
    let d0 = ((x / 34359738368) % 32) as u64;
    let d1 = ((x / 1073741824) % 32) as u64;
    let d2 = ((x / 33554432) % 32) as u64;
    let d3 = ((x / 1048576) % 32) as u64;
    let d4 = ((x / 32768) % 32) as u64;
    let d5 = ((x / 1024) % 32) as u64;
    let d6 = ((x / 32) % 32) as u64;
    let d7 = (x % 32) as u64;
    lemma_alpha_inv(d0 as u8);
    lemma_alpha_inv(d1 as u8);
    lemma_alpha_inv(d2 as u8);
    lemma_alpha_inv(d3 as u8);
    lemma_alpha_inv(d4 as u8);
    lemma_alpha_inv(d5 as u8);
    lemma_alpha_inv(d6 as u8);
    lemma_alpha_inv(d7 as u8);
    assert(((((((d0 * 32 + d1) * 32 + d2) * 32 + d3) * 32 + d4) * 32 + d5) * 32 + d6) * 32 + d7
        == xu && xu / 4294967296 == b0 as u64 && (xu / 16777216) % 256 == b1 as u64 && (xu / 65536)
        % 256 == b2 as u64 && (xu / 256) % 256 == b3 as u64 && xu % 256 == b4 as u64) by (bit_vector)
        requires
            xu == (b0 as u64) * 4294967296 + (b1 as u64) * 16777216 + (b2 as u64) * 65536 + (
            b3 as u64) * 256 + (b4 as u64),
            d0 == (xu / 34359738368) % 32,
            d1 == (xu / 1073741824) % 32,
            d2 == (xu / 33554432) % 32,
            d3 == (xu / 1048576) % 32,
            d4 == (xu / 32768) % 32,
            d5 == (xu / 1024) % 32,
            d6 == (xu / 32) % 32,
            d7 == xu % 32,
    ;
    assert(b32_dec_g8(b32_g5(b0, b1, b2, b3, b4)) matches Some(o) && o =~= seq![b0, b1, b2, b3, b4]);
}

/// Decoding inverts the encoding of a final group.
#[verifier::rlimit(100)]
#[verifier::spinoff_prover]
proof fn lemma_tail_inv(s: Seq<u8>)
    requires
        1 <= s.len() <= 4,
    ensures
        b32_dec_tail(b32_tail(s)) == Some(s),
        b32_tail(s).len() == (if s.len() == 1 {
            2int
        } else if s.len() == 2 {
            4int
        } else if s.len() == 3 {
            5int
        } else {
            7int
        }),
{
    reveal(b32_tail);
    reveal(b32_dec_tail);
    let t0 = s[0];
    let t1 = if s.len() >= 2 { s[1] } else { 0u8 };
    let t2 = if s.len() >= 3 { s[2] } else { 0u8 };
    let t3 = if s.len() >= 4 { s[3] } else { 0u8 };
    if s.len() == 1 {
        let y = s[0] as int * 4;
        let yu = y as u64;
        let d0 = ((y / 32) % 32) as u64;
        let d1 = (y % 32) as u64;
        lemma_alpha_inv(d0 as u8);
        lemma_alpha_inv(d1 as u8);
        assert(d0 * 32 + d1 == yu && yu / 4 == t0 as u64) by (bit_vector)
            requires
                yu == (t0 as u64) * 4,
                d0 == (yu / 32) % 32,
                d1 == yu % 32,
        ;
        assert(b32_dec_tail(b32_tail(s)) matches Some(o) && o =~= s);
    } else if s.len() == 2 {
        let y = (s[0] as int * 256 + s[1] as int) * 16;
        let yu = y as u64;
        let d0 = ((y / 32768) % 32) as u64;
        let d1 = ((y / 1024) % 32) as u64;
        let d2 = ((y / 32) % 32) as u64;
        let d3 = (y % 32) as u64;
        lemma_alpha_inv(d0 as u8);
        lemma_alpha_inv(d1 as u8);
        lemma_alpha_inv(d2 as u8);
        lemma_alpha_inv(d3 as u8);
        assert(((d0 * 32 + d1) * 32 + d2) * 32 + d3 == yu && yu / 4096 == t0 as u64 && (yu / 16)
            % 256 == t1 as u64) by (bit_vector)
            requires
                yu == ((t0 as u64) * 256 + (t1 as u64)) * 16,
                d0 == (yu / 32768) % 32,
                d1 == (yu / 1024) % 32,
                d2 == (yu / 32) % 32,
                d3 == yu % 32,
        ;
        assert(b32_dec_tail(b32_tail(s)) matches Some(o) && o =~= s);
    } else if s.len() == 3 {
        let y = (s[0] as int * 65536 + s[1] as int * 256 + s[2] as int) * 2;
        let yu = y as u64;
        let d0 = ((y / 1048576) % 32) as u64;
        let d1 = ((y / 32768) % 32) as u64;
        let d2 = ((y / 1024) % 32) as u64;
        let d3 = ((y / 32) % 32) as u64;
        let d4 = (y % 32) as u64;
        lemma_alpha_inv(d0 as u8);
        lemma_alpha_inv(d1 as u8);
        lemma_alpha_inv(d2 as u8);
        lemma_alpha_inv(d3 as u8);
        lemma_alpha_inv(d4 as u8);
        assert((((d0 * 32 + d1) * 32 + d2) * 32 + d3) * 32 + d4 == yu && yu / 131072 == t0 as u64
            && (yu / 512) % 256 == t1 as u64 && (yu / 2) % 256 == t2 as u64) by (bit_vector)
            requires
                yu == ((t0 as u64) * 65536 + (t1 as u64) * 256 + (t2 as u64)) * 2,
                d0 == (yu / 1048576) % 32,
                d1 == (yu / 32768) % 32,
                d2 == (yu / 1024) % 32,
                d3 == (yu / 32) % 32,
                d4 == yu % 32,
        ;
        assert(b32_dec_tail(b32_tail(s)) matches Some(o) && o =~= s);
    } else {
        let y = (s[0] as int * 16777216 + s[1] as int * 65536 + s[2] as int * 256 + s[3] as int)
            * 8;
        let yu = y as u64;
        let d0 = ((y / 1073741824) % 32) as u64;
        let d1 = ((y / 33554432) % 32) as u64;
        let d2 = ((y / 1048576) % 32) as u64;
        let d3 = ((y / 32768) % 32) as u64;
        let d4 = ((y / 1024) % 32) as u64;
        let d5 = ((y / 32) % 32) as u64;
        let d6 = (y % 32) as u64;
        lemma_alpha_inv(d0 as u8);
        lemma_alpha_inv(d1 as u8);
        lemma_alpha_inv(d2 as u8);
        lemma_alpha_inv(d3 as u8);
        lemma_alpha_inv(d4 as u8);
        lemma_alpha_inv(d5 as u8);
        lemma_alpha_inv(d6 as u8);
        assert((((((d0 * 32 + d1) * 32 + d2) * 32 + d3) * 32 + d4) * 32 + d5) * 32 + d6 == yu && yu
            / 134217728 == t0 as u64 && (yu / 524288) % 256 == t1 as u64 && (yu / 2048) % 256
            == t2 as u64 && (yu / 8) % 256 == t3 as u64) by (bit_vector)
            requires
                yu == ((t0 as u64) * 16777216 + (t1 as u64) * 65536 + (t2 as u64) * 256 + (
                t3 as u64)) * 8,
                d0 == (yu / 1073741824) % 32,
                d1 == (yu / 33554432) % 32,
                d2 == (yu / 1048576) % 32,
                d3 == (yu / 32768) % 32,
                d4 == (yu / 1024) % 32,
                d5 == (yu / 32) % 32,
                d6 == yu % 32,
        ;
        assert(b32_dec_tail(b32_tail(s)) matches Some(o) && o =~= s);
    }
}

/// Base32 round trip: decoding inverts the encoding.
#[verifier::rlimit(100)]
#[verifier::spinoff_prover]
pub proof fn lemma_b32_roundtrip(s: Seq<u8>)
    ensures
        b32_dec(b32_enc(s)) == Some(s),
    decreases s.len(),
{
    if s.len() == 0 {
        assert(b32_enc(s).len() == 0);
        assert(Seq::<u8>::empty() =~= s);
    } else if s.len() >= 5 {
        let e = b32_enc(s);
        let g = b32_g5(s[0], s[1], s[2], s[3], s[4]);
        lemma_g5_inv(s[0], s[1], s[2], s[3], s[4]);
        assert(e == g + b32_enc(s.skip(5)));
        assert(e.len() >= 8);
        assert(e.take(8) =~= g);
        assert(e.skip(8) =~= b32_enc(s.skip(5)));
        lemma_b32_roundtrip(s.skip(5));
        assert(seq![s[0], s[1], s[2], s[3], s[4]] + s.skip(5) =~= s);
    } else {
        lemma_tail_inv(s);
        let e = b32_tail(s);
        assert(e.len() == 2 || e.len() == 4 || e.len() == 5 || e.len() == 7);
    }
}

// ------------------------------------------------------------------
// The textual identity codec.
// ------------------------------------------------------------------

/// The two checksum bytes, big endian.
pub open spec fn crc_bytes(s: Seq<u8>) -> Seq<u8> {
    seq![(crc16(s) >> 8) as u8, (crc16(s) & 0xff) as u8]
}

/// The ASCII bytes of the textual form: `m`, then the base32 encoding of
/// the binary form followed by its checksum.
pub open spec fn text_of(i: IdentityV) -> Seq<u8> {
    seq![109u8] + b32_enc(i.bytes() + crc_bytes(i.bytes()))
}

impl Identity {
    /// The textual form of this identity.
    pub fn to_text(&self) -> (r: String)
        requires
            self@.wf(),
        ensures
            r@.len() == text_of(self@).len(),
            forall|i: int| 0 <= i < r@.len() ==> r@[i] == text_of(self@)[i] as char,
    {
        let bytes = self.to_vec();
        let crc = crc16_exec(&bytes);
        let mut payload = crate::error::copy_bytes(&bytes);
        payload.push((crc >> 8u16) as u8);
        payload.push((crc & 0xff) as u8);
        proof {
            assert(payload@ =~= bytes@ + crc_bytes(bytes@));
        }
        let enc = b32_encode(&payload);
        let mut text: Vec<u8> = Vec::new();
        text.push(109);
        crate::cbor::push_all(&mut text, &enc);
        proof {
            lemma_b32_enc_ascii(payload@);
            assert(text@ =~= text_of(self@));
            assert(forall|i: int| 0 <= i < text@.len() ==> text@[i] < 128);
        }
        ascii_to_string(&text)
    }

    /// Parses the textual form, case insensitively. Fails on a missing
    /// prefix, a character outside the alphabet, a bad length, a bad
    /// checksum or an unknown tag byte.
    pub fn from_text(s: &str) -> (r: Result<Identity, ManyError>)
        ensures
            match r {
                Ok(id) => parse_text_id(s.spec_bytes()) == Some(id@) && id@.wf(),
                Err(e) => parse_text_id(s.spec_bytes()) is None && e.code
                    == crate::error::CODE_INVALID_TEXTUAL,
            },
    {
        let bytes = s.as_bytes_vec();
        if bytes.len() < 1 {
            return Err(ManyError::invalid_textual());
        }
        if bytes[0] != 109 && bytes[0] != 77 {
            return Err(ManyError::invalid_textual());
        }
        let body = crate::cbor::copy_range(&bytes, 1, bytes.len());
        proof {
            assert(body@ =~= bytes@.skip(1));
        }
        let payload = match b32_decode(&body) {
            Some(p) => p,
            None => {
                return Err(ManyError::invalid_textual());
            },
        };
        if payload.len() < 3 {
            return Err(ManyError::invalid_textual());
        }
        let id_bytes = crate::cbor::copy_range(&payload, 0, payload.len() - 2);
        proof {
            assert(id_bytes@ =~= payload@.take(payload@.len() - 2));
        }
        let crc = crc16_exec(&id_bytes);
        let hi = payload[payload.len() - 2];
        let lo = payload[payload.len() - 1];
        if hi != (crc >> 8u16) as u8 || lo != (crc & 0xff) as u8 {
            return Err(ManyError::invalid_textual());
        }
        Identity::try_from_vec(&id_bytes)
    }
}

/// Parses the ASCII bytes of a textual identity: the `m` prefix (either
/// case), base32 decoding, checksum verification, then the binary form.
pub open spec fn parse_text_id(s: Seq<u8>) -> Option<IdentityV> {
    if s.len() < 1 {
        None
    } else if s[0] != 109 && s[0] != 77 {
        None
    } else {
        match b32_dec(s.skip(1)) {
            None => None,
            Some(payload) => if payload.len() < 3 {
                None
            } else {
                let idb = payload.take(payload.len() - 2);
                if payload[payload.len() - 2] == (crc16(idb) >> 8) as u8 && payload[payload.len()
                    - 1] == (crc16(idb) & 0xff) as u8 {
                    crate::identity::parse_identity(idb)
                } else {
                    None
                }
            },
        }
    }
}

/// Textual round trip: the textual form of a well-formed identity
/// parses back to the same identity.
pub proof fn lemma_text_roundtrip(i: IdentityV)
    requires
        i.wf(),
    ensures
        parse_text_id(text_of(i)) == Some(i),
{
    let b = i.bytes();
    let p = b + crc_bytes(b);
    let t = text_of(i);
    match i {
        IdentityV::Anonymous => {
            assert(b.len() == 1);
        },
        IdentityV::PublicKey { hash } => {
            assert(b.len() == 29);
        },
        IdentityV::Subresource { hash, sub_id } => {
            assert(b.len() == 32);
        },
    }
    assert(t[0] == 109);
    assert(t.skip(1) =~= b32_enc(p));
    lemma_b32_roundtrip(p);
    assert(p.len() == b.len() + 2);
    assert(p.take(p.len() - 2) =~= b);
    assert(p[p.len() - 2] == (crc16(b) >> 8) as u8);
    assert(p[p.len() - 1] == (crc16(b) & 0xff) as u8);
    crate::identity::lemma_parse_identity_roundtrip(i);
}

} // verus!
