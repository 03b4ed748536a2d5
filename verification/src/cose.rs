//! The COSE_Sign1 envelope: a four-item array of protected-header bytes,
//! an (empty) unprotected header, the payload and the signature. The
//! protected header of a signed envelope carries the algorithm (ES256),
//! the sender identity bytes as `kid`, the sender's COSE key under the
//! `"keyset"` label and optionally the `"webauthn"` label. An anonymous
//! envelope has an empty protected map and an empty signature.

use vstd::prelude::*;

use crate::cbor::{enc_array_head, enc_bool, enc_bytes, enc_int, enc_map_head, enc_text, enc_uint,
    lemma_parse_array_head, lemma_parse_bool, lemma_parse_bytes, lemma_parse_int,
    lemma_parse_map_head, lemma_parse_text, lemma_parse_uint, parse_array_head, parse_bool,
    parse_bytes, parse_int, parse_map_head, parse_text, parse_uint, read_array_head, read_bool,
    read_bytes, read_int, read_map_head, read_text, read_uint, write_array_head, write_bool,
    write_bytes, write_int, write_map_head, write_text, write_uint};
use crate::crypto::{p256_pub_of, p256_sig_of, p256_sign, p256_sk_valid, p256_verify,
    p256_verify_ok, sha224, sha224_of};
use crate::error::ManyError;
use crate::identity::{bytes_eq, lemma_parse_identity_roundtrip, parse_identity, Identity,
    IdentityV};
use crate::message::{enc_request, enc_response, parse_key, parse_request, parse_response,
    RequestMessage, RequestV, ResponseMessage, ResponseV};

verus! {

/// The UTF-8 bytes of the protected-header label "keyset".
pub open spec fn keyset_label() -> Seq<u8> {
    seq![107u8, 101u8, 121u8, 115u8, 101u8, 116u8]
}

/// The UTF-8 bytes of the protected-header label "webauthn".
pub open spec fn webauthn_label() -> Seq<u8> {
    seq![119u8, 101u8, 98u8, 97u8, 117u8, 116u8, 104u8, 110u8]
}

/// The UTF-8 bytes of the COSE Sig_structure context "Signature1".
pub open spec fn sig1_label() -> Seq<u8> {
    seq![83u8, 105u8, 103u8, 110u8, 97u8, 116u8, 117u8, 114u8, 101u8, 49u8]
}

fn keyset_label_vec() -> (r: Vec<u8>)
    ensures
        r@ == keyset_label(),
{
    let mut v: Vec<u8> = Vec::new();
    v.push(107);
    v.push(101);
    v.push(121);
    v.push(115);
    v.push(101);
    v.push(116);
    proof {
        assert(v@ =~= keyset_label());
    }
    v
}

fn webauthn_label_vec() -> (r: Vec<u8>)
    ensures
        r@ == webauthn_label(),
{
    let mut v: Vec<u8> = Vec::new();
    v.push(119);
    v.push(101);
    v.push(98);
    v.push(97);
    v.push(117);
    v.push(116);
    v.push(104);
    v.push(110);
    proof {
        assert(v@ =~= webauthn_label());
    }
    v
}

fn sig1_label_vec() -> (r: Vec<u8>)
    ensures
        r@ == sig1_label(),
{
    let mut v: Vec<u8> = Vec::new();
    v.push(83);
    v.push(105);
    v.push(103);
    v.push(110);
    v.push(97);
    v.push(116);
    v.push(117);
    v.push(114);
    v.push(101);
    v.push(49);
    proof {
        assert(v@ =~= sig1_label());
    }
    v
}

// ------------------------------------------------------------------
// COSE key (EC2, P-256, ES256) with coordinates x and y.
// ------------------------------------------------------------------

/// Canonical encoding of the sender's COSE key:
/// `{1: 2, 3: -7, -1: 1, -2: x, -3: y}`.
pub open spec fn enc_cose_key(x: Seq<u8>, y: Seq<u8>) -> Seq<u8> {
    enc_map_head(5) + enc_uint(1) + enc_uint(2) + enc_uint(3) + enc_int(-7i64) + enc_int(-1i64) + enc_uint(
        1,
    ) + enc_int(-2i64) + enc_bytes(x) + enc_int(-3i64) + enc_bytes(y)
}

/// The COSE key for an uncompressed SEC1 public point.
pub open spec fn cose_key_from_pub(pk: Seq<u8>) -> Seq<u8>
    recommends
        pk.len() == 65,
{
    enc_cose_key(pk.subrange(1, 33), pk.subrange(33, 65))
}

/// Parses a map key that must be the signed integer `key`.
pub open spec fn parse_int_key(s: Seq<u8>, key: i64) -> Option<int> {
    match parse_int(s) {
        None => None,
        Some((k, p)) => if k == key {
            Some(p)
        } else {
            None
        },
    }
}

/// Parses a text label that must equal `lbl`.
pub open spec fn parse_label(s: Seq<u8>, lbl: Seq<u8>) -> Option<int> {
    match parse_text(s) {
        None => None,
        Some((t, p)) => if t == lbl {
            Some(p)
        } else {
            None
        },
    }
}

/// Parses a canonical COSE key; the input must be consumed exactly and
/// the coordinates must be 32 bytes each.
pub open spec fn parse_cose_key(s: Seq<u8>) -> Option<(Seq<u8>, Seq<u8>)> {
    match parse_map_head(s) {
        None => None,
        Some((c, p0)) => if c != 5 {
            None
        } else {
            match parse_key(s.skip(p0), 1) {
                None => None,
                Some(p1) => match parse_uint(s.skip(p0 + p1)) {
                    None => None,
                    Some((kty, p2)) => if kty != 2 {
                        None
                    } else {
                        match parse_key(s.skip(p0 + p1 + p2), 3) {
                            None => None,
                            Some(p3) => match parse_int(s.skip(p0 + p1 + p2 + p3)) {
                                None => None,
                                Some((alg, p4)) => if alg != -7 {
                                    None
                                } else {
                                    let q0 = p0 + p1 + p2 + p3 + p4;
                                    match parse_int_key(s.skip(q0), -1i64) {
                                        None => None,
                                        Some(p5) => match parse_uint(s.skip(q0 + p5)) {
                                            None => None,
                                            Some((crv, p6)) => if crv != 1 {
                                                None
                                            } else {
                                                match parse_int_key(s.skip(q0 + p5 + p6), -2i64) {
                                                    None => None,
                                                    Some(p7) => match parse_bytes(
                                                        s.skip(q0 + p5 + p6 + p7),
                                                    ) {
                                                        None => None,
                                                        Some((x, p8)) => {
                                                            let q1 = q0 + p5 + p6 + p7 + p8;
                                                            match parse_int_key(s.skip(q1), -3i64) {
                                                                None => None,
                                                                Some(p9) => match parse_bytes(
                                                                    s.skip(q1 + p9),
                                                                ) {
                                                                    None => None,
                                                                    Some((y, p10)) => if q1 + p9
                                                                        + p10 == s.len() && x.len()
                                                                        == 32 && y.len() == 32 {
                                                                        Some((x, y))
                                                                    } else {
                                                                        None
                                                                    },
                                                                },
                                                            }
                                                        },
                                                    },
                                                }
                                            },
                                        },
                                    }
                                },
                            },
                        }
                    },
                },
            }
        },
    }
}

/// Round trip for the COSE key encoding.
#[verifier::rlimit(100)]
#[verifier::spinoff_prover]
pub proof fn lemma_parse_cose_key(x: Seq<u8>, y: Seq<u8>)
    requires
        x.len() == 32,
        y.len() == 32,
    ensures
        parse_cose_key(enc_cose_key(x, y)) == Some((x, y)),
{
    let mh = enc_map_head(5);
    let a1 = enc_uint(1);
    let a2 = enc_uint(2);
    let a3 = enc_uint(3);
    let a4 = enc_int(-7i64);
    let a5 = enc_int(-1i64);
    let a6 = enc_uint(1);
    let a7 = enc_int(-2i64);
    let a8 = enc_bytes(x);
    let a9 = enc_int(-3i64);
    let a10 = enc_bytes(y);
    let s = enc_cose_key(x, y);
    let t10 = a10;
    let t9 = a9 + t10;
    let t8 = a8 + t9;
    let t7 = a7 + t8;
    let t6 = a6 + t7;
    let t5 = a5 + t6;
    let t4 = a4 + t5;
    let t3 = a3 + t4;
    let t2 = a2 + t3;
    let t1 = a1 + t2;
    let l0 = mh.len() as int;
    let l1 = l0 + a1.len() as int;
    let l2 = l1 + a2.len() as int;
    let l3 = l2 + a3.len() as int;
    let l4 = l3 + a4.len() as int;
    let l5 = l4 + a5.len() as int;
    let l6 = l5 + a6.len() as int;
    let l7 = l6 + a7.len() as int;
    let l8 = l7 + a8.len() as int;
    let l9 = l8 + a9.len() as int;
    assert(s =~= mh + t1);
    lemma_parse_map_head(5, t1);
    assert(s.skip(l0) =~= t1);
    lemma_parse_uint(1, t2);
    assert(s.skip(l1) =~= t2);
    lemma_parse_uint(2, t3);
    assert(s.skip(l2) =~= t3);
    lemma_parse_uint(3, t4);
    assert(s.skip(l3) =~= t4);
    lemma_parse_int(-7i64, t5);
    assert(s.skip(l4) =~= t5);
    lemma_parse_int(-1i64, t6);
    assert(s.skip(l5) =~= t6);
    lemma_parse_uint(1, t7);
    assert(s.skip(l6) =~= t7);
    lemma_parse_int(-2i64, t8);
    assert(s.skip(l7) =~= t8);
    lemma_parse_bytes(x, t9);
    assert(s.skip(l8) =~= t9);
    lemma_parse_int(-3i64, t10);
    assert(s.skip(l9) =~= t10);
    lemma_parse_bytes(y, Seq::<u8>::empty());
    assert(t10 =~= a10 + Seq::<u8>::empty());
    assert(l9 + a10.len() as int == s.len() as int);
}

/// Appends the canonical COSE key encoding.
pub fn write_cose_key(out: &mut Vec<u8>, x: &Vec<u8>, y: &Vec<u8>)
    ensures
        final(out)@ == old(out)@ + enc_cose_key(x@, y@),
{
    write_map_head(out, 5);
    write_uint(out, 1);
    write_uint(out, 2);
    write_uint(out, 3);
    write_int(out, -7);
    write_int(out, -1);
    write_uint(out, 1);
    write_int(out, -2);
    write_bytes(out, x);
    write_int(out, -3);
    write_bytes(out, y);
    proof {
        assert(out@ =~= old(out)@ + enc_cose_key(x@, y@));
    }
}

fn read_expect_uint(b: &Vec<u8>, pos: usize, key: u64) -> (r: Option<usize>)
    requires
        pos <= b.len(),
    ensures
        match r {
            Some(end) => pos < end <= b.len() && parse_key(b@.skip(pos as int), key) == Some(
                (end - pos) as int,
            ),
            None => parse_key(b@.skip(pos as int), key) is None,
        },
{
    match read_uint(b, pos) {
        Some((k, p)) => if k == key {
            Some(p)
        } else {
            None
        },
        None => None,
    }
}

fn read_expect_int(b: &Vec<u8>, pos: usize, key: i64) -> (r: Option<usize>)
    requires
        pos <= b.len(),
    ensures
        match r {
            Some(end) => pos < end <= b.len() && parse_int_key(b@.skip(pos as int), key) == Some(
                (end - pos) as int,
            ),
            None => parse_int_key(b@.skip(pos as int), key) is None,
        },
{
    match read_int(b, pos) {
        Some((k, p)) => if k == key {
            Some(p)
        } else {
            None
        },
        None => None,
    }
}

fn read_expect_label(b: &Vec<u8>, pos: usize, lbl: &Vec<u8>) -> (r: Option<usize>)
    requires
        pos <= b.len(),
    ensures
        match r {
            Some(end) => pos < end <= b.len() && parse_label(b@.skip(pos as int), lbl@) == Some(
                (end - pos) as int,
            ),
            None => parse_label(b@.skip(pos as int), lbl@) is None,
        },
{
    match read_text(b, pos) {
        Some((t, p)) => if bytes_eq(&t, lbl) {
            Some(p)
        } else {
            None
        },
        None => None,
    }
}

/// Reads a canonical COSE key, returning the two 32-byte coordinates.
#[verifier::rlimit(100)]
#[verifier::spinoff_prover]
fn read_cose_key(b: &Vec<u8>) -> (r: Option<(Vec<u8>, Vec<u8>)>)
    ensures
        match r {
            Some((x, y)) => parse_cose_key(b@) == Some((x@, y@)) && x@.len() == 32 && y@.len()
                == 32,
            None => parse_cose_key(b@) is None,
        },
{
    proof {
        assert(b@.skip(0) =~= b@);
    }
    let (c, p0) = match read_map_head(b, 0) {
        Some(v) => v,
        None => {
            return None;
        },
    };
    if c != 5 {
        return None;
    }
    let p1 = match read_expect_uint(b, p0, 1) {
        Some(v) => v,
        None => {
            return None;
        },
    };
    proof {
        assert(b@.skip(p0 as int).skip((p1 - p0) as int) =~= b@.skip(p1 as int));
    }
    let (kty, p2) = match read_uint(b, p1) {
        Some(v) => v,
        None => {
            return None;
        },
    };
    if kty != 2 {
        return None;
    }
    proof {
        assert(b@.skip(p1 as int).skip((p2 - p1) as int) =~= b@.skip(p2 as int));
    }
    let p3 = match read_expect_uint(b, p2, 3) {
        Some(v) => v,
        None => {
            return None;
        },
    };
    proof {
        assert(b@.skip(p2 as int).skip((p3 - p2) as int) =~= b@.skip(p3 as int));
    }
    let (alg, p4) = match read_int(b, p3) {
        Some(v) => v,
        None => {
            return None;
        },
    };
    if alg != -7 {
        return None;
    }
    proof {
        assert(b@.skip(p3 as int).skip((p4 - p3) as int) =~= b@.skip(p4 as int));
    }
    let p5 = match read_expect_int(b, p4, -1) {
        Some(v) => v,
        None => {
            return None;
        },
    };
    proof {
        assert(b@.skip(p4 as int).skip((p5 - p4) as int) =~= b@.skip(p5 as int));
    }
    let (crv, p6) = match read_uint(b, p5) {
        Some(v) => v,
        None => {
            return None;
        },
    };
    if crv != 1 {
        return None;
    }
    proof {
        assert(b@.skip(p5 as int).skip((p6 - p5) as int) =~= b@.skip(p6 as int));
    }
    let p7 = match read_expect_int(b, p6, -2) {
        Some(v) => v,
        None => {
            return None;
        },
    };
    proof {
        assert(b@.skip(p6 as int).skip((p7 - p6) as int) =~= b@.skip(p7 as int));
    }
    let (x, p8) = match read_bytes(b, p7) {
        Some(v) => v,
        None => {
            return None;
        },
    };
    proof {
        assert(b@.skip(p7 as int).skip((p8 - p7) as int) =~= b@.skip(p8 as int));
    }
    let p9 = match read_expect_int(b, p8, -3) {
        Some(v) => v,
        None => {
            return None;
        },
    };
    proof {
        assert(b@.skip(p8 as int).skip((p9 - p8) as int) =~= b@.skip(p9 as int));
    }
    let (y, p10) = match read_bytes(b, p9) {
        Some(v) => v,
        None => {
            return None;
        },
    };
    if p10 != b.len() || x.len() != 32 || y.len() != 32 {
        return None;
    }
    Some((x, y))
}

// ------------------------------------------------------------------
// Protected header.
// ------------------------------------------------------------------

/// Canonical encoding of the protected header of a signed envelope.
pub open spec fn enc_protected(kid: Seq<u8>, keyset: Seq<u8>, webauthn: bool) -> Seq<u8> {
    enc_map_head(
        if webauthn {
            4
        } else {
            3
        },
    ) + enc_uint(1) + enc_int(-7i64) + enc_uint(4) + enc_bytes(kid) + enc_text(keyset_label())
        + enc_bytes(keyset) + (if webauthn {
        enc_text(webauthn_label()) + enc_bool(true)
    } else {
        Seq::<u8>::empty()
    })
}

/// Parses a protected header: algorithm, kid bytes, keyset bytes and the
/// webauthn flag; the input must be consumed exactly.
pub open spec fn parse_protected(s: Seq<u8>) -> Option<(i64, Seq<u8>, Seq<u8>, bool)> {
    match parse_map_head(s) {
        None => None,
        Some((c, p0)) => if c != 3 && c != 4 {
            None
        } else {
            match parse_key(s.skip(p0), 1) {
                None => None,
                Some(p1) => match parse_int(s.skip(p0 + p1)) {
                    None => None,
                    Some((alg, p2)) => match parse_key(s.skip(p0 + p1 + p2), 4) {
                        None => None,
                        Some(p3) => match parse_bytes(s.skip(p0 + p1 + p2 + p3)) {
                            None => None,
                            Some((kid, p4)) => {
                                let q0 = p0 + p1 + p2 + p3 + p4;
                                match parse_label(s.skip(q0), keyset_label()) {
                                    None => None,
                                    Some(p5) => match parse_bytes(s.skip(q0 + p5)) {
                                        None => None,
                                        Some((keyset, p6)) => {
                                            let q1 = q0 + p5 + p6;
                                            if c == 3 {
                                                if q1 == s.len() {
                                                    Some((alg, kid, keyset, false))
                                                } else {
                                                    None
                                                }
                                            } else {
                                                match parse_label(s.skip(q1), webauthn_label()) {
                                                    None => None,
                                                    Some(p7) => match parse_bool(
                                                        s.skip(q1 + p7),
                                                    ) {
                                                        None => None,
                                                        Some((v, p8)) => if v && q1 + p7 + p8
                                                            == s.len() {
                                                            Some((alg, kid, keyset, true))
                                                        } else {
                                                            None
                                                        },
                                                    },
                                                }
                                            }
                                        },
                                    },
                                }
                            },
                        },
                    },
                },
            }
        },
    }
}

/// Round trip for the protected header encoding.
#[verifier::rlimit(100)]
#[verifier::spinoff_prover]
pub proof fn lemma_parse_protected(kid: Seq<u8>, keyset: Seq<u8>, webauthn: bool)
    requires
        kid.len() < 18446744073709551616,
        keyset.len() < 18446744073709551616,
    ensures
        parse_protected(enc_protected(kid, keyset, webauthn)) == Some((-7i64, kid, keyset, webauthn)),
{
    let c: u64 = if webauthn {
        4
    } else {
        3
    };
    let mh = enc_map_head(c);
    let a1 = enc_uint(1);
    let a2 = enc_int(-7i64);
    let a3 = enc_uint(4);
    let a4 = enc_bytes(kid);
    let a5 = enc_text(keyset_label());
    let a6 = enc_bytes(keyset);
    let a7 = if webauthn {
        enc_text(webauthn_label()) + enc_bool(true)
    } else {
        Seq::<u8>::empty()
    };
    let s = enc_protected(kid, keyset, webauthn);
    let t7 = a7;
    let t6 = a6 + t7;
    let t5 = a5 + t6;
    let t4 = a4 + t5;
    let t3 = a3 + t4;
    let t2 = a2 + t3;
    let t1 = a1 + t2;
    let l0 = mh.len() as int;
    let l1 = l0 + a1.len() as int;
    let l2 = l1 + a2.len() as int;
    let l3 = l2 + a3.len() as int;
    let l4 = l3 + a4.len() as int;
    let l5 = l4 + a5.len() as int;
    let l6 = l5 + a6.len() as int;
    assert(s =~= mh + t1);
    lemma_parse_map_head(c, t1);
    assert(s.skip(l0) =~= t1);
    lemma_parse_uint(1, t2);
    assert(s.skip(l1) =~= t2);
    lemma_parse_int(-7i64, t3);
    assert(s.skip(l2) =~= t3);
    lemma_parse_uint(4, t4);
    assert(s.skip(l3) =~= t4);
    lemma_parse_bytes(kid, t5);
    assert(s.skip(l4) =~= t5);
    lemma_parse_text(keyset_label(), t6);
    assert(s.skip(l5) =~= t6);
    lemma_parse_bytes(keyset, t7);
    assert(s.skip(l6) =~= t7);
    if webauthn {
        let wl = enc_text(webauthn_label());
        assert(t7 =~= wl + (enc_bool(true) + Seq::<u8>::empty()));
        lemma_parse_text(webauthn_label(), enc_bool(true) + Seq::<u8>::empty());
        assert(s.skip(l6 + wl.len() as int) =~= enc_bool(true) + Seq::<u8>::empty());
        lemma_parse_bool(true, Seq::<u8>::empty());
        assert(l6 + wl.len() as int + enc_bool(true).len() as int == s.len() as int);
    } else {
        assert(t7.len() == 0);
        assert(l6 == s.len() as int);
    }
}

/// Appends the canonical protected header.
pub fn write_protected(out: &mut Vec<u8>, kid: &Vec<u8>, keyset: &Vec<u8>, webauthn: bool)
    ensures
        final(out)@ == old(out)@ + enc_protected(kid@, keyset@, webauthn),
{
    write_map_head(
        out,
        if webauthn {
            4
        } else {
            3
        },
    );
    write_uint(out, 1);
    write_int(out, -7);
    write_uint(out, 4);
    write_bytes(out, kid);
    let kl = keyset_label_vec();
    write_text(out, &kl);
    write_bytes(out, keyset);
    if webauthn {
        let wl = webauthn_label_vec();
        write_text(out, &wl);
        write_bool(out, true);
    }
    proof {
        assert(out@ =~= old(out)@ + enc_protected(kid@, keyset@, webauthn));
    }
}

/// Reads a protected header.
#[verifier::rlimit(100)]
#[verifier::spinoff_prover]
fn read_protected(b: &Vec<u8>) -> (r: Option<(i64, Vec<u8>, Vec<u8>, bool)>)
    ensures
        match r {
            Some((alg, kid, keyset, webauthn)) => parse_protected(b@) == Some(
                (alg, kid@, keyset@, webauthn),
            ),
            None => parse_protected(b@) is None,
        },
{
    proof {
        assert(b@.skip(0) =~= b@);
    }
    let (c, p0) = match read_map_head(b, 0) {
        Some(v) => v,
        None => {
            return None;
        },
    };
    if c != 3 && c != 4 {
        return None;
    }
    let p1 = match read_expect_uint(b, p0, 1) {
        Some(v) => v,
        None => {
            return None;
        },
    };
    proof {
        assert(b@.skip(p0 as int).skip((p1 - p0) as int) =~= b@.skip(p1 as int));
    }
    let (alg, p2) = match read_int(b, p1) {
        Some(v) => v,
        None => {
            return None;
        },
    };
    proof {
        assert(b@.skip(p1 as int).skip((p2 - p1) as int) =~= b@.skip(p2 as int));
    }
    let p3 = match read_expect_uint(b, p2, 4) {
        Some(v) => v,
        None => {
            return None;
        },
    };
    proof {
        assert(b@.skip(p2 as int).skip((p3 - p2) as int) =~= b@.skip(p3 as int));
    }
    let (kid, p4) = match read_bytes(b, p3) {
        Some(v) => v,
        None => {
            return None;
        },
    };
    proof {
        assert(b@.skip(p3 as int).skip((p4 - p3) as int) =~= b@.skip(p4 as int));
    }
    let kl = keyset_label_vec();
    let p5 = match read_expect_label(b, p4, &kl) {
        Some(v) => v,
        None => {
            return None;
        },
    };
    proof {
        assert(b@.skip(p4 as int).skip((p5 - p4) as int) =~= b@.skip(p5 as int));
    }
    let (keyset, p6) = match read_bytes(b, p5) {
        Some(v) => v,
        None => {
            return None;
        },
    };
    if c == 3 {
        if p6 != b.len() {
            return None;
        }
        Some((alg, kid, keyset, false))
    } else {
        proof {
            assert(b@.skip(p5 as int).skip((p6 - p5) as int) =~= b@.skip(p6 as int));
        }
        let wl = webauthn_label_vec();
        let p7 = match read_expect_label(b, p6, &wl) {
            Some(v) => v,
            None => {
                return None;
            },
        };
        proof {
            assert(b@.skip(p6 as int).skip((p7 - p6) as int) =~= b@.skip(p7 as int));
        }
        let (v, p8) = match read_bool(b, p7) {
            Some(x) => x,
            None => {
                return None;
            },
        };
        if !v || p8 != b.len() {
            return None;
        }
        Some((alg, kid, keyset, true))
    }
}

// ------------------------------------------------------------------
// Envelope and Sig_structure.
// ------------------------------------------------------------------

/// Canonical encoding of a COSE_Sign1 envelope.
pub open spec fn enc_envelope(prot: Seq<u8>, payload: Seq<u8>, sig: Seq<u8>) -> Seq<u8> {
    enc_array_head(4) + enc_bytes(prot) + enc_map_head(0) + enc_bytes(payload) + enc_bytes(sig)
}

/// Parses a COSE_Sign1 envelope into protected bytes, payload and
/// signature; the input must be consumed exactly.
pub open spec fn parse_envelope(s: Seq<u8>) -> Option<(Seq<u8>, Seq<u8>, Seq<u8>)> {
    match parse_array_head(s) {
        None => None,
        Some((c, p0)) => if c != 4 {
            None
        } else {
            match parse_bytes(s.skip(p0)) {
                None => None,
                Some((prot, p1)) => match parse_map_head(s.skip(p0 + p1)) {
                    None => None,
                    Some((u, p2)) => if u != 0 {
                        None
                    } else {
                        match parse_bytes(s.skip(p0 + p1 + p2)) {
                            None => None,
                            Some((payload, p3)) => match parse_bytes(s.skip(p0 + p1 + p2 + p3)) {
                                None => None,
                                Some((sig, p4)) => if p0 + p1 + p2 + p3 + p4 == s.len() {
                                    Some((prot, payload, sig))
                                } else {
                                    None
                                },
                            },
                        }
                    },
                },
            }
        },
    }
}

/// Round trip for the envelope encoding.
#[verifier::rlimit(100)]
#[verifier::spinoff_prover]
pub proof fn lemma_parse_envelope(prot: Seq<u8>, payload: Seq<u8>, sig: Seq<u8>)
    requires
        prot.len() < 18446744073709551616,
        payload.len() < 18446744073709551616,
        sig.len() < 18446744073709551616,
    ensures
        parse_envelope(enc_envelope(prot, payload, sig)) == Some((prot, payload, sig)),
{
    let ah = enc_array_head(4);
    let a1 = enc_bytes(prot);
    let a2 = enc_map_head(0);
    let a3 = enc_bytes(payload);
    let a4 = enc_bytes(sig);
    let s = enc_envelope(prot, payload, sig);
    let t4 = a4;
    let t3 = a3 + t4;
    let t2 = a2 + t3;
    let t1 = a1 + t2;
    let l0 = ah.len() as int;
    let l1 = l0 + a1.len() as int;
    let l2 = l1 + a2.len() as int;
    let l3 = l2 + a3.len() as int;
    assert(s =~= ah + t1);
    lemma_parse_array_head(4, t1);
    assert(s.skip(l0) =~= t1);
    lemma_parse_bytes(prot, t2);
    assert(s.skip(l1) =~= t2);
    lemma_parse_map_head(0, t3);
    assert(s.skip(l2) =~= t3);
    lemma_parse_bytes(payload, t4);
    assert(s.skip(l3) =~= t4);
    lemma_parse_bytes(sig, Seq::<u8>::empty());
    assert(t4 =~= a4 + Seq::<u8>::empty());
    assert(l3 + a4.len() as int == s.len() as int);
}

/// Canonical encoding of the COSE Sig_structure signed by the sender:
/// `["Signature1", protected, external_aad = h'', payload]`.
pub open spec fn enc_sig_structure(prot: Seq<u8>, payload: Seq<u8>) -> Seq<u8> {
    enc_array_head(4) + enc_text(sig1_label()) + enc_bytes(prot) + enc_bytes(Seq::<u8>::empty())
        + enc_bytes(payload)
}

/// Builds the Sig_structure bytes for a protected header and payload.
pub fn build_sig_structure(prot: &Vec<u8>, payload: &Vec<u8>) -> (r: Vec<u8>)
    ensures
        r@ == enc_sig_structure(prot@, payload@),
{
    let mut out: Vec<u8> = Vec::new();
    write_array_head(&mut out, 4);
    let sl = sig1_label_vec();
    write_text(&mut out, &sl);
    write_bytes(&mut out, prot);
    let empty: Vec<u8> = Vec::new();
    write_bytes(&mut out, &empty);
    write_bytes(&mut out, payload);
    proof {
        assert(out@ =~= enc_sig_structure(prot@, payload@));
    }
    out
}

// ------------------------------------------------------------------
// Key identity: an identity together with the key material behind it.
// ------------------------------------------------------------------

/// Mathematical model of a key identity.
pub struct CoseKeyIdentityV {
    pub identity: IdentityV,
    pub key: Option<Seq<u8>>,
    pub cose_key: Option<Seq<u8>>,
}

impl CoseKeyIdentityV {
    /// Anonymous: no key material. Signing: a valid secret scalar whose
    /// COSE key hashes to the identity.
    pub open spec fn wf(self) -> bool {
        match (self.key, self.cose_key) {
            (None, None) => self.identity is Anonymous,
            (Some(sk), Some(ck)) => {
                &&& p256_sk_valid(sk)
                &&& p256_pub_of(sk).len() == 65
                &&& p256_pub_of(sk)[0] == 4
                &&& ck == cose_key_from_pub(p256_pub_of(sk))
                &&& self.identity == (IdentityV::PublicKey { hash: sha224_of(ck) })
                &&& sha224_of(ck).len() == 28
            },
            _ => false,
        }
    }
}

/// An identity with the key material that signs for it: either anonymous
/// (no key, unsigned envelopes) or a software key (a P-256 secret scalar).
pub struct CoseKeyIdentity {
    pub identity: Identity,
    pub key: Option<Vec<u8>>,
    pub cose_key: Option<Vec<u8>>,
}

impl View for CoseKeyIdentity {
    type V = CoseKeyIdentityV;

    open spec fn view(&self) -> CoseKeyIdentityV {
        CoseKeyIdentityV {
            identity: self.identity@,
            key: match self.key {
                Some(ref k) => Some(k@),
                None => None,
            },
            cose_key: match self.cose_key {
                Some(ref k) => Some(k@),
                None => None,
            },
        }
    }
}

impl CoseKeyIdentity {
    /// The anonymous signer: unsigned envelopes, anonymous identity.
    pub fn anonymous() -> (r: CoseKeyIdentity)
        ensures
            r@.wf(),
            r@.identity is Anonymous,
    {
        CoseKeyIdentity { identity: Identity::anonymous(), key: None, cose_key: None }
    }

    /// Builds the signer for a P-256 secret scalar: derives the public
    /// point, its COSE key and the identity (the SHA-224 of the COSE key
    /// behind the public-key tag). Fails exactly on an invalid scalar.
    pub fn from_secret_key(sk: Vec<u8>) -> (r: Result<CoseKeyIdentity, ManyError>)
        ensures
            match r {
                Ok(k) => p256_sk_valid(sk@) && k@.wf() && k@.key == Some(sk@) && !(
                k@.identity is Anonymous),
                Err(e) => !p256_sk_valid(sk@) && e.code == crate::error::CODE_INVALID_KEY,
            },
    {
        let pk = match crate::crypto::p256_public_key(&sk) {
            Some(pk) => pk,
            None => {
                return Err(ManyError::invalid_key());
            },
        };
        let x = crate::cbor::copy_range(&pk, 1, 33);
        let y = crate::cbor::copy_range(&pk, 33, 65);
        let mut ck: Vec<u8> = Vec::new();
        write_cose_key(&mut ck, &x, &y);
        let h = sha224(&ck);
        let identity = Identity::from_hash(h);
        proof {
            assert(ck@ == cose_key_from_pub(p256_pub_of(sk@)));
        }
        Ok(CoseKeyIdentity { identity, key: Some(sk), cose_key: Some(ck) })
    }

    pub fn dup(&self) -> (r: CoseKeyIdentity)
        ensures
            r@ == self@,
    {
        CoseKeyIdentity {
            identity: self.identity.dup(),
            key: match &self.key {
                Some(k) => Some(crate::error::copy_bytes(k)),
                None => None,
            },
            cose_key: match &self.cose_key {
                Some(k) => Some(crate::error::copy_bytes(k)),
                None => None,
            },
        }
    }
}

// ------------------------------------------------------------------
// Envelope encoding and decoding.
// ------------------------------------------------------------------

/// A well-formed key identity has a well-formed identity.
pub proof fn lemma_key_identity_wf(kv: CoseKeyIdentityV)
    requires
        kv.wf(),
    ensures
        kv.identity.wf(),
{
    match (kv.key, kv.cose_key) {
        (None, None) => {},
        (Some(sk), Some(ck)) => {
            assert(kv.identity == (IdentityV::PublicKey { hash: sha224_of(ck) }));
        },
        _ => {},
    }
}

/// Whether an identity's hash is the SHA-224 of the keyset bytes.
pub open spec fn matches_key(kid: IdentityV, keyset: Seq<u8>) -> bool {
    match kid {
        IdentityV::Anonymous => false,
        IdentityV::PublicKey { hash } => hash == sha224_of(keyset),
        IdentityV::Subresource { hash, sub_id } => hash == sha224_of(keyset),
    }
}

/// The envelope a well-formed key identity produces for a payload.
pub open spec fn signed_envelope(kv: CoseKeyIdentityV, payload: Seq<u8>, webauthn: bool) -> Seq<
    u8,
> {
    if kv.identity is Anonymous {
        enc_envelope(enc_map_head(0), payload, Seq::<u8>::empty())
    } else {
        let prot = enc_protected(kv.identity.bytes(), kv.cose_key->Some_0, webauthn);
        enc_envelope(
            prot,
            payload,
            p256_sig_of(kv.key->Some_0, enc_sig_structure(prot, payload)),
        )
    }
}

/// What decoding an envelope yields: the payload, the verified sender
/// (anonymous when unsigned) and the webauthn flag.
pub open spec fn decode_payload_spec(b: Seq<u8>) -> Option<(Seq<u8>, IdentityV, bool)> {
    match parse_envelope(b) {
        None => None,
        Some((prot, payload, sig)) => {
            if prot == enc_map_head(0) {
                if sig.len() == 0 {
                    Some((payload, IdentityV::Anonymous, false))
                } else {
                    None
                }
            } else {
                match parse_protected(prot) {
                    None => None,
                    Some((alg, kidb, keyset, wa)) => if alg != -7 {
                        None
                    } else {
                        match parse_identity(kidb) {
                            None => None,
                            Some(kid) => if !matches_key(kid, keyset) {
                                None
                            } else {
                                match parse_cose_key(keyset) {
                                    None => None,
                                    Some((x, y)) => if p256_verify_ok(
                                        seq![4u8] + x + y,
                                        enc_sig_structure(prot, payload),
                                        sig,
                                    ) {
                                        Some((payload, kid, wa))
                                    } else {
                                        None
                                    },
                                }
                            },
                        }
                    },
                }
            }
        },
    }
}

/// Encodes and signs a payload as a COSE_Sign1 envelope. Never fails for
/// a well-formed key identity.
pub fn encode_cose_sign1(payload: &Vec<u8>, key: &CoseKeyIdentity, webauthn: bool) -> (r: Result<
    Vec<u8>,
    ManyError,
>)
    requires
        key@.wf(),
    ensures
        r matches Ok(env) && env@ == signed_envelope(key@, payload@, webauthn),
{
    let mut out: Vec<u8> = Vec::new();
    match (&key.key, &key.cose_key) {
        (Some(sk), Some(ck)) => {
            let kid = key.identity.to_vec();
            let mut prot: Vec<u8> = Vec::new();
            write_protected(&mut prot, &kid, ck, webauthn);
            let ss = build_sig_structure(&prot, payload);
            let sig = match p256_sign(sk, &ss) {
                Some(sig) => sig,
                None => {
                    proof {
                        assert(false);
                    }
                    return Err(ManyError::invalid_key());
                },
            };
            write_array_head(&mut out, 4);
            write_bytes(&mut out, &prot);
            write_map_head(&mut out, 0);
            write_bytes(&mut out, payload);
            write_bytes(&mut out, &sig);
            proof {
                assert(out@ =~= signed_envelope(key@, payload@, webauthn));
            }
            Ok(out)
        },
        _ => {
            write_array_head(&mut out, 4);
            let mut prot: Vec<u8> = Vec::new();
            write_map_head(&mut prot, 0);
            write_bytes(&mut out, &prot);
            write_map_head(&mut out, 0);
            write_bytes(&mut out, payload);
            let empty: Vec<u8> = Vec::new();
            write_bytes(&mut out, &empty);
            proof {
                assert(out@ =~= signed_envelope(key@, payload@, webauthn));
            }
            Ok(out)
        },
    }
}

/// Decodes a COSE_Sign1 envelope: parses it, checks the key id against
/// the embedded key and verifies the signature. Returns the payload, the
/// verified sender identity and the webauthn flag.
pub fn decode_envelope(b: &Vec<u8>) -> (r: Result<(Vec<u8>, Identity, bool), ManyError>)
    ensures
        match r {
            Ok((payload, sender, webauthn)) => decode_payload_spec(b@) == Some(
                (payload@, sender@, webauthn),
            ) && sender@.wf(),
            Err(e) => decode_payload_spec(b@) is None && (e.code
                == crate::error::CODE_MALFORMED_ENVELOPE || e.code
                == crate::error::CODE_UNKNOWN_ALG || e.code
                == crate::error::CODE_SIGNATURE_MISMATCH || e.code
                == crate::error::CODE_IDENTITY_MISMATCH),
        },
{
    proof {
        assert(b@.skip(0) =~= b@);
    }
    let (c, p0) = match read_array_head(b, 0) {
        Some(v) => v,
        None => {
            return Err(ManyError::malformed_envelope());
        },
    };
    if c != 4 {
        return Err(ManyError::malformed_envelope());
    }
    let (prot, p1) = match read_bytes(b, p0) {
        Some(v) => v,
        None => {
            return Err(ManyError::malformed_envelope());
        },
    };
    proof {
        assert(b@.skip(p0 as int).skip((p1 - p0) as int) =~= b@.skip(p1 as int));
    }
    let (u, p2) = match read_map_head(b, p1) {
        Some(v) => v,
        None => {
            return Err(ManyError::malformed_envelope());
        },
    };
    if u != 0 {
        return Err(ManyError::malformed_envelope());
    }
    proof {
        assert(b@.skip(p1 as int).skip((p2 - p1) as int) =~= b@.skip(p2 as int));
    }
    let (payload, p3) = match read_bytes(b, p2) {
        Some(v) => v,
        None => {
            return Err(ManyError::malformed_envelope());
        },
    };
    proof {
        assert(b@.skip(p2 as int).skip((p3 - p2) as int) =~= b@.skip(p3 as int));
    }
    let (sig, p4) = match read_bytes(b, p3) {
        Some(v) => v,
        None => {
            return Err(ManyError::malformed_envelope());
        },
    };
    if p4 != b.len() {
        return Err(ManyError::malformed_envelope());
    }
    let mut empty_map: Vec<u8> = Vec::new();
    write_map_head(&mut empty_map, 0);
    if bytes_eq(&prot, &empty_map) {
        if sig.len() != 0 {
            return Err(ManyError::malformed_envelope());
        }
        return Ok((payload, Identity::anonymous(), false));
    }
    let (alg, kidb, keyset, wa) = match read_protected(&prot) {
        Some(v) => v,
        None => {
            return Err(ManyError::malformed_envelope());
        },
    };
    if alg != -7 {
        return Err(ManyError::unknown_alg());
    }
    let kid = match Identity::try_from_vec(&kidb) {
        Ok(k) => k,
        Err(_) => {
            return Err(ManyError::identity_mismatch());
        },
    };
    let hash_ok: bool = match &kid {
        Identity::Anonymous => false,
        Identity::PublicKey { hash } => {
            let h = sha224(&keyset);
            bytes_eq(hash, &h)
        },
        Identity::Subresource { hash, sub_id } => {
            let h = sha224(&keyset);
            bytes_eq(hash, &h)
        },
    };
    if !hash_ok {
        return Err(ManyError::identity_mismatch());
    }
    let (x, y) = match read_cose_key(&keyset) {
        Some(v) => v,
        None => {
            return Err(ManyError::malformed_envelope());
        },
    };
    let mut pk: Vec<u8> = Vec::new();
    pk.push(4);
    crate::cbor::push_all(&mut pk, &x);
    crate::cbor::push_all(&mut pk, &y);
    let ss = build_sig_structure(&prot, &payload);
    proof {
        assert(pk@ =~= seq![4u8] + x@ + y@);
        assert(seq![4u8] + x@ + y@ =~= seq![4u8] + (x@ + y@));
    }
    if !p256_verify(&pk, &ss, &sig) {
        return Err(ManyError::signature_mismatch());
    }
    Ok((payload, kid, wa))
}

/// Round trip of the envelope layer: decoding the envelope that a
/// well-formed key identity produced returns the payload and the key's
/// identity, provided the produced signature verifies (which the signing
/// wrapper guarantees at run time).
pub proof fn lemma_envelope_roundtrip(kv: CoseKeyIdentityV, payload: Seq<u8>, webauthn: bool)
    requires
        kv.wf(),
        payload.len() < 18446744073709551616,
        !(kv.identity is Anonymous) ==> enc_protected(
            kv.identity.bytes(),
            kv.cose_key->Some_0,
            webauthn,
        ).len() < 18446744073709551616,
        !(kv.identity is Anonymous) ==> p256_sig_of(
            kv.key->Some_0,
            enc_sig_structure(
                enc_protected(kv.identity.bytes(), kv.cose_key->Some_0, webauthn),
                payload,
            ),
        ).len() < 18446744073709551616,
        !(kv.identity is Anonymous) ==> p256_verify_ok(
            p256_pub_of(kv.key->Some_0),
            enc_sig_structure(
                enc_protected(kv.identity.bytes(), kv.cose_key->Some_0, webauthn),
                payload,
            ),
            p256_sig_of(
                kv.key->Some_0,
                enc_sig_structure(
                    enc_protected(kv.identity.bytes(), kv.cose_key->Some_0, webauthn),
                    payload,
                ),
            ),
        ),
    ensures
        decode_payload_spec(signed_envelope(kv, payload, webauthn)) == Some(
            (
                payload,
                kv.identity,
                if kv.identity is Anonymous {
                    false
                } else {
                    webauthn
                },
            ),
        ),
{
    if kv.identity is Anonymous {
        crate::cbor::lemma_enc_head_len(5, 0);
        lemma_parse_envelope(enc_map_head(0), payload, Seq::<u8>::empty());
    } else {
        let sk = kv.key->Some_0;
        let ck = kv.cose_key->Some_0;
        let prot = enc_protected(kv.identity.bytes(), ck, webauthn);
        let sig = p256_sig_of(sk, enc_sig_structure(prot, payload));
        lemma_parse_envelope(prot, payload, sig);
        crate::cbor::lemma_enc_head_len(5, if webauthn { 4 } else { 3 });
        crate::cbor::lemma_enc_head_len(5, 0);
        crate::cbor::lemma_enc_head_len(0, 1);
        assert(prot.len() >= 2);
        assert(enc_map_head(0).len() == 1);
        assert(prot != enc_map_head(0));
        lemma_parse_protected(kv.identity.bytes(), ck, webauthn);
        lemma_parse_identity_roundtrip(kv.identity);
        let pk = p256_pub_of(sk);
        let x = pk.subrange(1, 33);
        let y = pk.subrange(33, 65);
        lemma_parse_cose_key(x, y);
        assert(seq![4u8] + x + y =~= pk);
        assert(matches_key(kv.identity, ck));
    }
}

// ------------------------------------------------------------------
// Request and response envelopes.
// ------------------------------------------------------------------

/// What decoding a request envelope yields: the request and the
/// webauthn flag, with the sender verified against `from`.
pub open spec fn decode_request_spec(b: Seq<u8>) -> Option<(RequestV, bool)> {
    match decode_payload_spec(b) {
        None => None,
        Some((payload, sender, wa)) => match parse_request(payload) {
            None => None,
            Some(m) => if m.from == sender {
                Some((m, wa))
            } else {
                None
            },
        },
    }
}

/// What decoding a response envelope yields.
pub open spec fn decode_response_spec(b: Seq<u8>) -> Option<ResponseV> {
    match decode_payload_spec(b) {
        None => None,
        Some((payload, sender, wa)) => match parse_response(payload) {
            None => None,
            Some(m) => if m.from == sender {
                Some(m)
            } else {
                None
            },
        },
    }
}

/// Encodes and signs a request message as a COSE_Sign1 envelope.
pub fn encode_cose_sign1_from_request(msg: &RequestMessage, key: &CoseKeyIdentity) -> (r: Result<
    Vec<u8>,
    ManyError,
>)
    requires
        msg@.wf(),
        key@.wf(),
    ensures
        r matches Ok(env) && env@ == signed_envelope(key@, enc_request(msg@), false),
{
    let payload = msg.to_bytes();
    encode_cose_sign1(&payload, key, false)
}

/// Encodes and signs a response message as a COSE_Sign1 envelope.
pub fn encode_cose_sign1_from_response(msg: &ResponseMessage, key: &CoseKeyIdentity) -> (r:
    Result<Vec<u8>, ManyError>)
    requires
        msg@.wf(),
        key@.wf(),
    ensures
        r matches Ok(env) && env@ == signed_envelope(key@, enc_response(msg@), false),
{
    let payload = msg.to_bytes();
    encode_cose_sign1(&payload, key, false)
}

/// Decodes a request envelope: verifies the signature, parses the
/// payload and checks that the message's sender is the verified key id.
/// Returns the request and the webauthn flag.
pub fn decode_request_from_cose_sign1(b: &Vec<u8>) -> (r: Result<(RequestMessage, bool), ManyError>)
    ensures
        match r {
            Ok((m, wa)) => decode_request_spec(b@) == Some((m@, wa)) && m@.from.wf(),
            Err(e) => decode_request_spec(b@) is None && e.code < 0,
        },
{
    let (payload, sender, wa) = match decode_envelope(b) {
        Ok(v) => v,
        Err(e) => {
            return Err(e);
        },
    };
    let m = match RequestMessage::from_bytes(&payload) {
        Ok(m) => m,
        Err(e) => {
            return Err(e);
        },
    };
    if !m.from.equals(&sender) {
        return Err(ManyError::identity_mismatch());
    }
    Ok((m, wa))
}

/// Decodes a response envelope; when `expected_to` is given, the
/// responder must be that identity (prevents response substitution).
pub fn decode_response_from_cose_sign1(b: &Vec<u8>, expected_to: Option<&Identity>) -> (r: Result<
    ResponseMessage,
    ManyError,
>)
    ensures
        match r {
            Ok(m) => decode_response_spec(b@) == Some(m@) && (match expected_to {
                Some(t) => m@.from == t@,
                None => true,
            }),
            Err(e) => e.code < 0 && (decode_response_spec(b@) is None || (
            expected_to matches Some(t) && decode_response_spec(b@)->Some_0.from != t@ && e.code
                == crate::error::CODE_UNEXPECTED_RESPONDER)),
        },
{
    let (payload, sender, wa) = match decode_envelope(b) {
        Ok(v) => v,
        Err(e) => {
            return Err(e);
        },
    };
    let m = match ResponseMessage::from_bytes(&payload) {
        Ok(m) => m,
        Err(e) => {
            return Err(e);
        },
    };
    if !m.from.equals(&sender) {
        return Err(ManyError::identity_mismatch());
    }
    match expected_to {
        Some(t) => {
            if !m.from.equals(t) {
                return Err(ManyError::unexpected_responder());
            }
        },
        None => {},
    }
    Ok(m)
}

/// Envelope round trip for requests: decoding the envelope a well-formed
/// key identity produced for a well-formed request whose sender is that
/// identity returns the same request, with the decoded identity equal to
/// the key's identity.
pub proof fn lemma_request_envelope_roundtrip(kv: CoseKeyIdentityV, m: RequestV, webauthn: bool)
    requires
        kv.wf(),
        m.wf(),
        m.bounded(),
        m.from == kv.identity,
        enc_request(m).len() < 18446744073709551616,
        !(kv.identity is Anonymous) ==> enc_protected(
            kv.identity.bytes(),
            kv.cose_key->Some_0,
            webauthn,
        ).len() < 18446744073709551616,
        !(kv.identity is Anonymous) ==> p256_sig_of(
            kv.key->Some_0,
            enc_sig_structure(
                enc_protected(kv.identity.bytes(), kv.cose_key->Some_0, webauthn),
                enc_request(m),
            ),
        ).len() < 18446744073709551616,
        !(kv.identity is Anonymous) ==> p256_verify_ok(
            p256_pub_of(kv.key->Some_0),
            enc_sig_structure(
                enc_protected(kv.identity.bytes(), kv.cose_key->Some_0, webauthn),
                enc_request(m),
            ),
            p256_sig_of(
                kv.key->Some_0,
                enc_sig_structure(
                    enc_protected(kv.identity.bytes(), kv.cose_key->Some_0, webauthn),
                    enc_request(m),
                ),
            ),
        ),
    ensures
        decode_request_spec(signed_envelope(kv, enc_request(m), webauthn)) == Some(
            (
                m,
                if kv.identity is Anonymous {
                    false
                } else {
                    webauthn
                },
            ),
        ),
{
    lemma_envelope_roundtrip(kv, enc_request(m), webauthn);
    crate::message::lemma_request_roundtrip(m);
}

/// Envelope round trip for responses.
pub proof fn lemma_response_envelope_roundtrip(kv: CoseKeyIdentityV, m: ResponseV, webauthn: bool)
    requires
        kv.wf(),
        m.wf(),
        m.bounded(),
        m.from == kv.identity,
        enc_response(m).len() < 18446744073709551616,
        !(kv.identity is Anonymous) ==> enc_protected(
            kv.identity.bytes(),
            kv.cose_key->Some_0,
            webauthn,
        ).len() < 18446744073709551616,
        !(kv.identity is Anonymous) ==> p256_sig_of(
            kv.key->Some_0,
            enc_sig_structure(
                enc_protected(kv.identity.bytes(), kv.cose_key->Some_0, webauthn),
                enc_response(m),
            ),
        ).len() < 18446744073709551616,
        !(kv.identity is Anonymous) ==> p256_verify_ok(
            p256_pub_of(kv.key->Some_0),
            enc_sig_structure(
                enc_protected(kv.identity.bytes(), kv.cose_key->Some_0, webauthn),
                enc_response(m),
            ),
            p256_sig_of(
                kv.key->Some_0,
                enc_sig_structure(
                    enc_protected(kv.identity.bytes(), kv.cose_key->Some_0, webauthn),
                    enc_response(m),
                ),
            ),
        ),
    ensures
        decode_response_spec(signed_envelope(kv, enc_response(m), webauthn)) == Some(m),
{
    lemma_envelope_roundtrip(kv, enc_response(m), webauthn);
    crate::message::lemma_response_roundtrip(m);
}

} // verus!
