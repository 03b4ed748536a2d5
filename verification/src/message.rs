//! The request/response message schema and its canonical CBOR binding.
//!
//! A request is a map `{0: version, 1: from, 2: to, 3: method, 4: data,
//! 5: timestamp, 6?: id}`; a response is a map `{0: version, 1: from,
//! 2?: to, 4: data-or-error, 5: timestamp, 6?: id, 8?: attributes}`.
//! `data-or-error` is a byte string on success and an error map
//! `{0: code, 1: message}` on failure, distinguished by major type.

use vstd::prelude::*;

use crate::cbor::{enc_array_head, enc_bytes, enc_int, enc_map_head, enc_text, enc_uint,
    parse_array_head, parse_bytes, parse_int, parse_map_head, parse_text, parse_uint,
    lemma_parse_array_head, lemma_parse_bytes, lemma_parse_int, lemma_parse_map_head,
    lemma_parse_text, lemma_parse_uint, read_array_head, read_bytes, read_int, read_map_head,
    read_text, read_uint, write_array_head, write_bytes, write_int, write_map_head, write_text,
    write_uint};
use crate::identity::{lemma_parse_identity_roundtrip, lemma_parse_identity_wf};
use crate::error::{ErrorV, ManyError};
use crate::identity::{parse_identity, Identity, IdentityV};

verus! {

/// An attribute: a numbered capability group, optionally carrying one
/// CBOR-encoded argument (a byte string on the wire).
#[derive(Debug, Clone, PartialEq, Eq)]
pub struct Attribute {
    pub id: u32,
    pub argument: Option<Vec<u8>>,
}

/// Mathematical model of an attribute.
pub struct AttributeV {
    pub id: u32,
    pub argument: Option<Seq<u8>>,
}

impl View for Attribute {
    type V = AttributeV;

    open spec fn view(&self) -> AttributeV {
        AttributeV {
            id: self.id,
            argument: match self.argument {
                Some(ref a) => Some(a@),
                None => None,
            },
        }
    }
}

impl AttributeV {
    pub open spec fn wf(self) -> bool {
        match self.argument {
            Some(a) => a.len() < 18446744073709551616,
            None => true,
        }
    }
}

impl Attribute {
    /// An attribute without arguments.
    pub fn id(id: u32) -> (r: Attribute)
        ensures
            r@ == (AttributeV { id, argument: None }),
    {
        Attribute { id, argument: None }
    }

    /// An attribute with one argument.
    pub fn with_argument(id: u32, argument: Vec<u8>) -> (r: Attribute)
        ensures
            r@ == (AttributeV { id, argument: Some(argument@) }),
    {
        Attribute { id, argument: Some(argument) }
    }

    pub fn dup(&self) -> (r: Attribute)
        ensures
            r@ == self@,
    {
        Attribute {
            id: self.id,
            argument: match &self.argument {
                Some(a) => Some(crate::error::copy_bytes(a)),
                None => None,
            },
        }
    }
}

/// Mathematical model of a request.
pub struct RequestV {
    pub version: u64,
    pub from: IdentityV,
    pub to: IdentityV,
    pub method: Seq<u8>,
    pub data: Seq<u8>,
    pub timestamp: u64,
    pub id: Option<u64>,
    pub nonce: Option<Seq<u8>>,
    pub attributes: Seq<AttributeV>,
}

impl RequestV {
    pub open spec fn wf(self) -> bool {
        &&& self.from.wf()
        &&& self.to.wf()
    }

    /// The field lengths fit the wire format's length arguments; true of
    /// every value built from vectors.
    pub open spec fn bounded(self) -> bool {
        &&& self.method.len() < 18446744073709551616
        &&& self.data.len() < 18446744073709551616
        &&& match self.nonce {
            Some(n) => n.len() < 18446744073709551616,
            None => true,
        }
        &&& self.attributes.len() < 18446744073709551616
        &&& forall|i: int| 0 <= i < self.attributes.len() ==> #[trigger] self.attributes[i].wf()
    }
}

/// A request message: who calls whom, the dotted method name, and the
/// CBOR-encoded argument bytes.
#[derive(Debug, Clone, PartialEq, Eq)]
pub struct RequestMessage {
    pub version: u64,
    pub from: Identity,
    pub to: Identity,
    pub method: Vec<u8>,
    pub data: Vec<u8>,
    pub timestamp: u64,
    pub id: Option<u64>,
    pub nonce: Option<Vec<u8>>,
    pub attributes: Vec<Attribute>,
}

impl View for RequestMessage {
    type V = RequestV;

    open spec fn view(&self) -> RequestV {
        RequestV {
            version: self.version,
            from: self.from@,
            to: self.to@,
            method: self.method@,
            data: self.data@,
            timestamp: self.timestamp,
            id: self.id,
            nonce: match self.nonce {
                Some(ref n) => Some(n@),
                None => None,
            },
            attributes: Seq::new(self.attributes@.len(), |i: int| self.attributes@[i]@),
        }
    }
}

/// Mathematical model of a response.
pub struct ResponseV {
    pub version: u64,
    pub from: IdentityV,
    pub to: Option<IdentityV>,
    pub data: Result<Seq<u8>, ErrorV>,
    pub timestamp: u64,
    pub id: Option<u64>,
    pub attributes: Seq<AttributeV>,
}

impl ResponseV {
    pub open spec fn wf(self) -> bool {
        &&& self.from.wf()
        &&& match self.to {
            Some(t) => t.wf(),
            None => true,
        }
    }

    /// The field lengths fit the wire format's length arguments; true of
    /// every value built from vectors.
    pub open spec fn bounded(self) -> bool {
        &&& match self.data {
            Ok(d) => d.len() < 18446744073709551616,
            Err(e) => e.message.len() < 18446744073709551616,
        }
        &&& self.attributes.len() < 18446744073709551616
        &&& forall|i: int| 0 <= i < self.attributes.len() ==> #[trigger] self.attributes[i].wf()
    }
}

/// A response message: the responder, the result (payload bytes or an
/// error), and out-of-band attributes such as an async token.
#[derive(Debug)]
pub struct ResponseMessage {
    pub version: u64,
    pub from: Identity,
    pub to: Option<Identity>,
    pub data: Result<Vec<u8>, ManyError>,
    pub timestamp: u64,
    pub id: Option<u64>,
    pub attributes: Vec<Attribute>,
}

impl View for ResponseMessage {
    type V = ResponseV;

    open spec fn view(&self) -> ResponseV {
        ResponseV {
            version: self.version,
            from: self.from@,
            to: match self.to {
                Some(ref t) => Some(t@),
                None => None,
            },
            data: match self.data {
                Ok(ref d) => Ok(d@),
                Err(ref e) => Err(e@),
            },
            timestamp: self.timestamp,
            id: self.id,
            attributes: Seq::new(self.attributes@.len(), |i: int| self.attributes@[i]@),
        }
    }
}

// ------------------------------------------------------------------
// Spec-level encoders.
// ------------------------------------------------------------------

/// Encoding of one attribute.
pub open spec fn enc_attr(a: AttributeV) -> Seq<u8> {
    match a.argument {
        None => enc_uint(a.id as u64),
        Some(arg) => enc_array_head(2) + enc_uint(a.id as u64) + enc_bytes(arg),
    }
}

/// Encoding of a list of attributes, one after the other.
pub open spec fn enc_attrs(attrs: Seq<AttributeV>) -> Seq<u8>
    decreases attrs.len(),
{
    if attrs.len() == 0 {
        Seq::empty()
    } else {
        enc_attr(attrs[0]) + enc_attrs(attrs.skip(1))
    }
}

/// Encoding of the attributes field: an array head then the attributes.
pub open spec fn enc_attr_list(attrs: Seq<AttributeV>) -> Seq<u8>
    recommends
        attrs.len() < 18446744073709551616,
{
    enc_array_head(attrs.len() as u64) + enc_attrs(attrs)
}

/// Encoding of an error record.
pub open spec fn enc_error(e: ErrorV) -> Seq<u8>
    recommends
        e.message.len() < 18446744073709551616,
{
    enc_map_head(2) + enc_uint(0) + enc_int(e.code) + enc_uint(1) + enc_text(e.message)
}

/// Encoding of the data-or-error field of a response.
pub open spec fn enc_data(d: Result<Seq<u8>, ErrorV>) -> Seq<u8> {
    match d {
        Ok(b) => enc_bytes(b),
        Err(e) => enc_error(e),
    }
}

/// Number of entries in the encoded request map.
pub open spec fn request_field_count(m: RequestV) -> u64 {
    (6 + (if m.id is Some {
        1int
    } else {
        0int
    }) + (if m.nonce is Some {
        1int
    } else {
        0int
    }) + (if m.attributes.len() > 0 {
        1int
    } else {
        0int
    })) as u64
}

/// Canonical encoding of a request message.
pub open spec fn enc_request(m: RequestV) -> Seq<u8>
    recommends
        m.wf(),
{
    enc_map_head(request_field_count(m)) + enc_uint(0) + enc_uint(m.version) + enc_uint(1)
        + enc_bytes(m.from.bytes()) + enc_uint(2) + enc_bytes(m.to.bytes()) + enc_uint(3)
        + enc_text(m.method) + enc_uint(4) + enc_bytes(m.data) + enc_uint(5) + enc_uint(m.timestamp)
        + (match m.id {
        Some(id) => enc_uint(6) + enc_uint(id),
        None => Seq::empty(),
    }) + (match m.nonce {
        Some(n) => enc_uint(7) + enc_bytes(n),
        None => Seq::empty(),
    }) + (if m.attributes.len() > 0 {
        enc_uint(8) + enc_attr_list(m.attributes)
    } else {
        Seq::empty()
    })
}

/// Number of entries in the encoded response map.
pub open spec fn response_field_count(m: ResponseV) -> u64 {
    (4 + (if m.to is Some {
        1int
    } else {
        0int
    }) + (if m.id is Some {
        1int
    } else {
        0int
    }) + (if m.attributes.len() > 0 {
        1int
    } else {
        0int
    })) as u64
}

/// Canonical encoding of a response message.
pub open spec fn enc_response(m: ResponseV) -> Seq<u8>
    recommends
        m.wf(),
{
    enc_map_head(response_field_count(m)) + enc_uint(0) + enc_uint(m.version) + enc_uint(1)
        + enc_bytes(m.from.bytes()) + (match m.to {
        Some(t) => enc_uint(2) + enc_bytes(t.bytes()),
        None => Seq::empty(),
    }) + enc_uint(4) + enc_data(m.data) + enc_uint(5) + enc_uint(m.timestamp) + (match m.id {
        Some(id) => enc_uint(6) + enc_uint(id),
        None => Seq::empty(),
    }) + (if m.attributes.len() > 0 {
        enc_uint(8) + enc_attr_list(m.attributes)
    } else {
        Seq::empty()
    })
}

// ------------------------------------------------------------------
// Spec-level parsers.
// ------------------------------------------------------------------

/// Parses a map key: an unsigned integer that must equal `key`.
pub open spec fn parse_key(s: Seq<u8>, key: u64) -> Option<int> {
    match parse_uint(s) {
        None => None,
        Some((k, p)) => if k == key {
            Some(p)
        } else {
            None
        },
    }
}

pub open spec fn parse_uint_field(s: Seq<u8>, key: u64) -> Option<(u64, int)> {
    match parse_key(s, key) {
        None => None,
        Some(p) => match parse_uint(s.skip(p)) {
            None => None,
            Some((v, q)) => Some((v, p + q)),
        },
    }
}

pub open spec fn parse_bytes_field(s: Seq<u8>, key: u64) -> Option<(Seq<u8>, int)> {
    match parse_key(s, key) {
        None => None,
        Some(p) => match parse_bytes(s.skip(p)) {
            None => None,
            Some((v, q)) => Some((v, p + q)),
        },
    }
}

pub open spec fn parse_text_field(s: Seq<u8>, key: u64) -> Option<(Seq<u8>, int)> {
    match parse_key(s, key) {
        None => None,
        Some(p) => match parse_text(s.skip(p)) {
            None => None,
            Some((v, q)) => Some((v, p + q)),
        },
    }
}

/// Parses a map key followed by an identity in a byte string.
pub open spec fn parse_id_field(s: Seq<u8>, key: u64) -> Option<(IdentityV, int)> {
    match parse_bytes_field(s, key) {
        None => None,
        Some((b, p)) => match parse_identity(b) {
            None => None,
            Some(i) => Some((i, p)),
        },
    }
}

/// Parses one attribute: a bare id or a two-item array of id and argument.
pub open spec fn parse_attr(s: Seq<u8>) -> Option<(AttributeV, int)> {
    match parse_uint(s) {
        Some((v, k)) => if v <= 4294967295 {
            Some((AttributeV { id: v as u32, argument: None }, k))
        } else {
            None
        },
        None => match parse_array_head(s) {
            Some((c, k)) => if c == 2 {
                match parse_uint(s.skip(k)) {
                    Some((v, k2)) => if v <= 4294967295 {
                        match parse_bytes(s.skip(k + k2)) {
                            Some((arg, k3)) => Some(
                                (AttributeV { id: v as u32, argument: Some(arg) }, k + k2 + k3),
                            ),
                            None => None,
                        }
                    } else {
                        None
                    },
                    None => None,
                }
            } else {
                None
            },
            None => None,
        },
    }
}

/// Parses exactly `n` attributes.
pub open spec fn parse_attrs(s: Seq<u8>, n: nat) -> Option<(Seq<AttributeV>, int)>
    decreases n,
{
    if n == 0 {
        Some((Seq::empty(), 0))
    } else {
        match parse_attr(s) {
            None => None,
            Some((a, k)) => match parse_attrs(s.skip(k), (n - 1) as nat) {
                None => None,
                Some((rest, k2)) => Some((seq![a] + rest, k + k2)),
            },
        }
    }
}

/// Parses the attributes field: an array head then its attributes.
pub open spec fn parse_attr_list(s: Seq<u8>) -> Option<(Seq<AttributeV>, int)> {
    match parse_array_head(s) {
        None => None,
        Some((n, k)) => match parse_attrs(s.skip(k), n as nat) {
            None => None,
            Some((attrs, k2)) => Some((attrs, k + k2)),
        },
    }
}

/// Parses an error record.
pub open spec fn parse_error(s: Seq<u8>) -> Option<(ErrorV, int)> {
    match parse_map_head(s) {
        None => None,
        Some((c, p0)) => if c == 2 {
            match parse_key(s.skip(p0), 0) {
                None => None,
                Some(p1) => match parse_int(s.skip(p0 + p1)) {
                    None => None,
                    Some((code, p2)) => match parse_key(s.skip(p0 + p1 + p2), 1) {
                        None => None,
                        Some(p3) => match parse_text(s.skip(p0 + p1 + p2 + p3)) {
                            None => None,
                            Some((msg, p4)) => Some(
                                (ErrorV { code, message: msg }, p0 + p1 + p2 + p3 + p4),
                            ),
                        },
                    },
                },
            }
        } else {
            None
        },
    }
}

/// Parses the data-or-error field, distinguished by major type.
pub open spec fn parse_data(s: Seq<u8>) -> Option<(Result<Seq<u8>, ErrorV>, int)> {
    match parse_bytes(s) {
        Some((b, k)) => Some((Ok(b), k)),
        None => match parse_error(s) {
            Some((e, k)) => Some((Err(e), k)),
            None => None,
        },
    }
}

/// Parses the optional trailing fields of a request map: the id
/// (key 6), the nonce (key 7) and the attributes (key 8); the input
/// must be consumed exactly.
pub open spec fn parse_req_tail(s: Seq<u8>) -> Option<
    (Option<u64>, Option<Seq<u8>>, Seq<AttributeV>),
> {
    let id_parsed = parse_uint_field(s, 6);
    let id = match id_parsed {
        Some((v, _)) => Some(v),
        None => None,
    };
    let s7 = match id_parsed {
        Some((v, p)) => s.skip(p),
        None => s,
    };
    let nonce_parsed = parse_bytes_field(s7, 7);
    let nonce = match nonce_parsed {
        Some((n, _)) => Some(n),
        None => None,
    };
    let s8 = match nonce_parsed {
        Some((n, p)) => s7.skip(p),
        None => s7,
    };
    let attrs_parsed = match parse_key(s8, 8) {
        None => None,
        Some(p8) => match parse_attr_list(s8.skip(p8)) {
            None => None,
            Some((a, p9)) => Some((a, p8 + p9)),
        },
    };
    let attrs = match attrs_parsed {
        Some((a, _)) => a,
        None => Seq::empty(),
    };
    let s9 = match attrs_parsed {
        Some((a, p)) => s8.skip(p),
        None => s8,
    };
    if s9.len() == 0 && (match attrs_parsed {
        Some((a, _)) => a.len() > 0,
        None => true,
    }) {
        Some((id, nonce, attrs))
    } else {
        None
    }
}

/// Parses a whole request message; the input must be consumed exactly.
pub open spec fn parse_request(s: Seq<u8>) -> Option<RequestV> {
    match parse_map_head(s) {
        None => None,
        Some((cnt, p0)) => {
            if cnt < 6 || cnt > 9 {
                None
            } else {
                let s1 = s.skip(p0);
                match parse_uint_field(s1, 0) {
                    None => None,
                    Some((version, p1)) => {
                        let s2 = s1.skip(p1);
                        match parse_id_field(s2, 1) {
                            None => None,
                            Some((from, p2)) => {
                                let s3 = s2.skip(p2);
                                match parse_id_field(s3, 2) {
                                    None => None,
                                    Some((to, p3)) => {
                                        let s4 = s3.skip(p3);
                                        match parse_text_field(s4, 3) {
                                            None => None,
                                            Some((method, p4)) => {
                                                let s5 = s4.skip(p4);
                                                match parse_bytes_field(s5, 4) {
                                                    None => None,
                                                    Some((data, p5)) => {
                                                        let s6 = s5.skip(p5);
                                                        match parse_uint_field(s6, 5) {
                                                            None => None,
                                                            Some((timestamp, p6)) => {
                                                                let s7 = s6.skip(p6);
                                                                match parse_req_tail(s7) {
                                                                    None => None,
                                                                    Some((id, nonce, attrs)) => {
                                                                        let m = RequestV {
                                                                            version,
                                                                            from,
                                                                            to,
                                                                            method,
                                                                            data,
                                                                            timestamp,
                                                                            id,
                                                                            nonce,
                                                                            attributes: attrs,
                                                                        };
                                                                        if cnt
                                                                            == request_field_count(
                                                                            m,
                                                                        ) {
                                                                            Some(m)
                                                                        } else {
                                                                            None
                                                                        }
                                                                    },
                                                                }
                                                            },
                                                        }
                                                    },
                                                }
                                            },
                                        }
                                    },
                                }
                            },
                        }
                    },
                }
            }
        },
    }
}

/// Parses the middle fields of a response map: the optional
/// destination (key 2), the data-or-error field (key 4) and the
/// timestamp (key 5); returns them with the bytes consumed.
pub open spec fn parse_resp_mid(s: Seq<u8>) -> Option<
    ((Option<IdentityV>, Result<Seq<u8>, ErrorV>, u64), int),
> {
    let to_parsed = parse_id_field(s, 2);
    let to = match to_parsed {
        Some((t, _)) => Some(t),
        None => None,
    };
    let s4 = match to_parsed {
        Some((t, p3)) => s.skip(p3),
        None => s,
    };
    let p3 = match to_parsed {
        Some((t, p)) => p,
        None => 0,
    };
    match parse_key(s4, 4) {
        None => None,
        Some(p4) => match parse_data(s4.skip(p4)) {
            None => None,
            Some((data, p5)) => {
                let s5 = s4.skip(p4 + p5);
                match parse_uint_field(s5, 5) {
                    None => None,
                    Some((timestamp, p6)) => Some(((to, data, timestamp), p3 + p4 + p5 + p6)),
                }
            },
        },
    }
}

/// Parses the optional trailing fields of a response map: the id
/// (key 6) and the attributes (key 8); the input must be consumed
/// exactly.
pub open spec fn parse_resp_tail(s: Seq<u8>) -> Option<(Option<u64>, Seq<AttributeV>)> {
    let id_parsed = parse_uint_field(s, 6);
    let id = match id_parsed {
        Some((v, _)) => Some(v),
        None => None,
    };
    let s7 = match id_parsed {
        Some((v, p)) => s.skip(p),
        None => s,
    };
    let attrs_parsed = match parse_key(s7, 8) {
        None => None,
        Some(p8) => match parse_attr_list(s7.skip(p8)) {
            None => None,
            Some((a, p9)) => Some((a, p8 + p9)),
        },
    };
    let attrs = match attrs_parsed {
        Some((a, _)) => a,
        None => Seq::empty(),
    };
    let s8 = match attrs_parsed {
        Some((a, p)) => s7.skip(p),
        None => s7,
    };
    if s8.len() == 0 && (match attrs_parsed {
        Some((a, _)) => a.len() > 0,
        None => true,
    }) {
        Some((id, attrs))
    } else {
        None
    }
}

/// Parses a whole response message; the input must be consumed exactly.
pub open spec fn parse_response(s: Seq<u8>) -> Option<ResponseV> {
    match parse_map_head(s) {
        None => None,
        Some((cnt, p0)) => {
            let s1 = s.skip(p0);
            match parse_uint_field(s1, 0) {
                None => None,
                Some((version, p1)) => {
                    let s2 = s1.skip(p1);
                    match parse_id_field(s2, 1) {
                        None => None,
                        Some((from, p2)) => {
                            let s3 = s2.skip(p2);
                            match parse_resp_mid(s3) {
                                None => None,
                                Some(((to, data, timestamp), pm)) => {
                                    let s6 = s3.skip(pm);
                                    match parse_resp_tail(s6) {
                                        None => None,
                                        Some((id, attrs)) => {
                                            let m = ResponseV {
                                                version,
                                                from,
                                                to,
                                                data,
                                                timestamp,
                                                id,
                                                attributes: attrs,
                                            };
                                            if cnt == response_field_count(m) {
                                                Some(m)
                                            } else {
                                                None
                                            }
                                        },
                                    }
                                },
                            }
                        },
                    }
                },
            }
        },
    }
}

/// The view of a vector of attributes.
pub open spec fn attrs_view(v: Seq<Attribute>) -> Seq<AttributeV> {
    Seq::new(v.len(), |i: int| v[i]@)
}

// ------------------------------------------------------------------
// Inversion lemmas: parsing an encoding returns the encoded value.
// ------------------------------------------------------------------

pub proof fn lemma_parse_key(key: u64, rest: Seq<u8>)
    ensures
        parse_key(enc_uint(key) + rest, key) == Some(enc_uint(key).len() as int),
{
    lemma_parse_uint(key, rest);
}

pub proof fn lemma_parse_uint_field(key: u64, v: u64, rest: Seq<u8>)
    ensures
        parse_uint_field(enc_uint(key) + enc_uint(v) + rest, key) == Some(
            (v, (enc_uint(key) + enc_uint(v)).len() as int),
        ),
{
    let ek = enc_uint(key);
    let ev = enc_uint(v);
    let s = ek + ev + rest;
    assert(s =~= ek + (ev + rest));
    lemma_parse_uint(key, ev + rest);
    assert(s.skip(ek.len() as int) =~= ev + rest);
    lemma_parse_uint(v, rest);
}

pub proof fn lemma_parse_bytes_field(key: u64, v: Seq<u8>, rest: Seq<u8>)
    requires
        v.len() < 18446744073709551616,
    ensures
        parse_bytes_field(enc_uint(key) + enc_bytes(v) + rest, key) == Some(
            (v, (enc_uint(key) + enc_bytes(v)).len() as int),
        ),
{
    let ek = enc_uint(key);
    let ev = enc_bytes(v);
    let s = ek + ev + rest;
    assert(s =~= ek + (ev + rest));
    lemma_parse_uint(key, ev + rest);
    assert(s.skip(ek.len() as int) =~= ev + rest);
    lemma_parse_bytes(v, rest);
}

pub proof fn lemma_parse_text_field(key: u64, v: Seq<u8>, rest: Seq<u8>)
    requires
        v.len() < 18446744073709551616,
    ensures
        parse_text_field(enc_uint(key) + enc_text(v) + rest, key) == Some(
            (v, (enc_uint(key) + enc_text(v)).len() as int),
        ),
{
    let ek = enc_uint(key);
    let ev = enc_text(v);
    let s = ek + ev + rest;
    assert(s =~= ek + (ev + rest));
    lemma_parse_uint(key, ev + rest);
    assert(s.skip(ek.len() as int) =~= ev + rest);
    lemma_parse_text(v, rest);
}

pub proof fn lemma_parse_id_field(key: u64, i: IdentityV, rest: Seq<u8>)
    requires
        i.wf(),
    ensures
        parse_id_field(enc_uint(key) + enc_bytes(i.bytes()) + rest, key) == Some(
            (i, (enc_uint(key) + enc_bytes(i.bytes())).len() as int),
        ),
{
    lemma_parse_bytes_field(key, i.bytes(), rest);
    lemma_parse_identity_roundtrip(i);
}

pub proof fn lemma_parse_attr(a: AttributeV, rest: Seq<u8>)
    requires
        a.wf(),
    ensures
        parse_attr(enc_attr(a) + rest) == Some((a, enc_attr(a).len() as int)),
{
    match a.argument {
        None => {
            lemma_parse_uint(a.id as u64, rest);
        },
        Some(arg) => {
            let h = enc_array_head(2);
            let ei = enc_uint(a.id as u64);
            let eb = enc_bytes(arg);
            let s = enc_attr(a) + rest;
            assert(s =~= h + (ei + (eb + rest)));
            lemma_parse_array_head(2, ei + (eb + rest));
            assert(parse_uint(s) is None);
            assert(s.skip(h.len() as int) =~= ei + (eb + rest));
            lemma_parse_uint(a.id as u64, eb + rest);
            assert(s.skip(h.len() as int + ei.len() as int) =~= eb + rest);
            assert(s.skip(h.len() as int).skip(ei.len() as int) =~= s.skip(
                h.len() as int + ei.len() as int,
            ));
            lemma_parse_bytes(arg, rest);
        },
    }
}

pub proof fn lemma_parse_attrs(attrs: Seq<AttributeV>, rest: Seq<u8>)
    requires
        forall|i: int| 0 <= i < attrs.len() ==> #[trigger] attrs[i].wf(),
    ensures
        parse_attrs(enc_attrs(attrs) + rest, attrs.len() as nat) == Some(
            (attrs, enc_attrs(attrs).len() as int),
        ),
    decreases attrs.len(),
{
    if attrs.len() == 0 {
        assert(enc_attrs(attrs) + rest =~= rest);
        assert(Seq::<AttributeV>::empty() =~= attrs);
    } else {
        let a0 = attrs[0];
        let tail = attrs.skip(1);
        let e0 = enc_attr(a0);
        let etail = enc_attrs(tail);
        let s = enc_attrs(attrs) + rest;
        assert(s =~= e0 + (etail + rest));
        lemma_parse_attr(a0, etail + rest);
        assert(s.skip(e0.len() as int) =~= etail + rest);
        assert(forall|i: int| 0 <= i < tail.len() ==> #[trigger] tail[i].wf());
        lemma_parse_attrs(tail, rest);
        assert(seq![a0] + tail =~= attrs);
    }
}

pub proof fn lemma_parse_attr_list(attrs: Seq<AttributeV>, rest: Seq<u8>)
    requires
        attrs.len() < 18446744073709551616,
        forall|i: int| 0 <= i < attrs.len() ==> #[trigger] attrs[i].wf(),
    ensures
        parse_attr_list(enc_attr_list(attrs) + rest) == Some(
            (attrs, enc_attr_list(attrs).len() as int),
        ),
{
    let h = enc_array_head(attrs.len() as u64);
    let s = enc_attr_list(attrs) + rest;
    assert(s =~= h + (enc_attrs(attrs) + rest));
    lemma_parse_array_head(attrs.len() as u64, enc_attrs(attrs) + rest);
    assert(s.skip(h.len() as int) =~= enc_attrs(attrs) + rest);
    lemma_parse_attrs(attrs, rest);
}

#[verifier::rlimit(100)]
#[verifier::spinoff_prover]
pub proof fn lemma_parse_error(e: ErrorV, rest: Seq<u8>)
    requires
        e.message.len() < 18446744073709551616,
    ensures
        parse_error(enc_error(e) + rest) == Some((e, enc_error(e).len() as int)),
{
    let mh = enc_map_head(2);
    let k0 = enc_uint(0);
    let v0 = enc_int(e.code);
    let k1 = enc_uint(1);
    let v1 = enc_text(e.message);
    let s = enc_error(e) + rest;
    assert(s =~= mh + (k0 + (v0 + (k1 + (v1 + rest)))));
    lemma_parse_map_head(2, k0 + (v0 + (k1 + (v1 + rest))));
    let p0 = mh.len() as int;
    assert(s.skip(p0) =~= k0 + (v0 + (k1 + (v1 + rest))));
    lemma_parse_key(0, v0 + (k1 + (v1 + rest)));
    let p1 = k0.len() as int;
    assert(s.skip(p0 + p1) =~= v0 + (k1 + (v1 + rest)));
    lemma_parse_int(e.code, k1 + (v1 + rest));
    let p2 = v0.len() as int;
    assert(s.skip(p0 + p1 + p2) =~= k1 + (v1 + rest));
    lemma_parse_key(1, v1 + rest);
    let p3 = k1.len() as int;
    assert(s.skip(p0 + p1 + p2 + p3) =~= v1 + rest);
    lemma_parse_text(e.message, rest);
    assert((ErrorV { code: e.code, message: e.message }) == e);
}

pub proof fn lemma_parse_data(d: Result<Seq<u8>, ErrorV>, rest: Seq<u8>)
    requires
        match d {
            Ok(b) => b.len() < 18446744073709551616,
            Err(e) => e.message.len() < 18446744073709551616,
        },
    ensures
        parse_data(enc_data(d) + rest) == Some((d, enc_data(d).len() as int)),
{
    match d {
        Ok(b) => {
            lemma_parse_bytes(b, rest);
        },
        Err(e) => {
            lemma_parse_error(e, rest);
            lemma_parse_map_head(2, (enc_error(e) + rest).skip(enc_map_head(2).len() as int));
            assert(parse_bytes(enc_error(e) + rest) is None);
        },
    }
}

/// The trailing fields of a request round-trip: encoding an optional
/// id, an optional nonce and an attribute list and parsing them back
/// returns the same values.
#[verifier::rlimit(100)]
#[verifier::spinoff_prover]
pub proof fn lemma_parse_req_tail(id: Option<u64>, nonce: Option<Seq<u8>>, attrs: Seq<AttributeV>)
    requires
        match nonce {
            Some(n) => n.len() < 18446744073709551616,
            None => true,
        },
        attrs.len() < 18446744073709551616,
        forall|i: int| 0 <= i < attrs.len() ==> #[trigger] attrs[i].wf(),
    ensures
        parse_req_tail(
            (match id {
                Some(i) => enc_uint(6) + enc_uint(i),
                None => Seq::<u8>::empty(),
            }) + (match nonce {
                Some(n) => enc_uint(7) + enc_bytes(n),
                None => Seq::<u8>::empty(),
            }) + (if attrs.len() > 0 {
                enc_uint(8) + enc_attr_list(attrs)
            } else {
                Seq::<u8>::empty()
            }),
        ) == Some((id, nonce, attrs)),
{
    let f6 = match id {
        Some(i) => enc_uint(6) + enc_uint(i),
        None => Seq::<u8>::empty(),
    };
    let f7 = match nonce {
        Some(n) => enc_uint(7) + enc_bytes(n),
        None => Seq::<u8>::empty(),
    };
    let f8 = if attrs.len() > 0 {
        enc_uint(8) + enc_attr_list(attrs)
    } else {
        Seq::<u8>::empty()
    };
    let t = f6 + f7 + f8;
    let t7 = f7 + f8;
    assert(t =~= f6 + t7);
    match id {
        Some(i) => {
            assert(t =~= enc_uint(6) + enc_uint(i) + t7);
            lemma_parse_uint_field(6, i, t7);
            assert(t.skip(f6.len() as int) =~= t7);
        },
        None => {
            assert(t =~= t7);
            match nonce {
                Some(n) => {
                    assert(t =~= enc_uint(7) + (enc_bytes(n) + f8));
                    lemma_parse_uint(7, enc_bytes(n) + f8);
                    assert(parse_uint_field(t, 6) is None);
                },
                None => {
                    if attrs.len() > 0 {
                        assert(t =~= enc_uint(8) + (enc_attr_list(attrs) + Seq::<u8>::empty()));
                        lemma_parse_uint(8, enc_attr_list(attrs) + Seq::<u8>::empty());
                        assert(parse_uint_field(t, 6) is None);
                    } else {
                        assert(t.len() == 0);
                        crate::cbor::lemma_parse_head_empty(t);
                        assert(parse_uint_field(t, 6) is None);
                    }
                },
            }
        },
    }
    // After the id field the remaining input is exactly t7.
    match nonce {
        Some(n) => {
            assert(t7 =~= enc_uint(7) + enc_bytes(n) + f8);
            lemma_parse_bytes_field(7, n, f8);
            assert(t7.skip(f7.len() as int) =~= f8);
        },
        None => {
            assert(t7 =~= f8);
            if attrs.len() > 0 {
                assert(t7 =~= enc_uint(8) + (enc_attr_list(attrs) + Seq::<u8>::empty()));
                lemma_parse_uint(8, enc_attr_list(attrs) + Seq::<u8>::empty());
                assert(parse_bytes_field(t7, 7) is None);
            } else {
                assert(t7.len() == 0);
                crate::cbor::lemma_parse_head_empty(t7);
                assert(parse_bytes_field(t7, 7) is None);
            }
        },
    }
    // After the nonce field the remaining input is exactly f8.
    if attrs.len() > 0 {
        assert(f8 =~= enc_uint(8) + (enc_attr_list(attrs) + Seq::<u8>::empty()));
        lemma_parse_key(8, enc_attr_list(attrs) + Seq::<u8>::empty());
        assert(f8.skip(enc_uint(8).len() as int) =~= enc_attr_list(attrs) + Seq::<u8>::empty());
        lemma_parse_attr_list(attrs, Seq::<u8>::empty());
        assert(f8.skip(enc_uint(8).len() as int + enc_attr_list(attrs).len() as int)
            =~= Seq::<u8>::empty());
    } else {
        assert(f8.len() == 0);
        crate::cbor::lemma_parse_head_empty(f8);
        assert(parse_key(f8, 8) is None);
        assert(Seq::<AttributeV>::empty() =~= attrs);
    }
}

/// Round trip: the canonical encoding of a well-formed request parses
/// back to the same request.
#[verifier::rlimit(100)]
#[verifier::spinoff_prover]
pub proof fn lemma_request_roundtrip(m: RequestV)
    requires
        m.wf(),
        m.bounded(),
    ensures
        parse_request(enc_request(m)) == Some(m),
{
    let cnt: u64 = request_field_count(m);
    let mh = enc_map_head(cnt);
    let f0 = enc_uint(0) + enc_uint(m.version);
    let f1 = enc_uint(1) + enc_bytes(m.from.bytes());
    let f2 = enc_uint(2) + enc_bytes(m.to.bytes());
    let f3 = enc_uint(3) + enc_text(m.method);
    let f4 = enc_uint(4) + enc_bytes(m.data);
    let f5 = enc_uint(5) + enc_uint(m.timestamp);
    let f6 = (match m.id {
        Some(id) => enc_uint(6) + enc_uint(id),
        None => Seq::<u8>::empty(),
    }) + (match m.nonce {
        Some(n) => enc_uint(7) + enc_bytes(n),
        None => Seq::<u8>::empty(),
    }) + (if m.attributes.len() > 0 {
        enc_uint(8) + enc_attr_list(m.attributes)
    } else {
        Seq::<u8>::empty()
    });
    let s = enc_request(m);
    let t6 = f6;
    let t5 = f5 + t6;
    let t4 = f4 + t5;
    let t3 = f3 + t4;
    let t2 = f2 + t3;
    let t1 = f1 + t2;
    let t0 = f0 + t1;
    assert(s =~= mh + t0);
    lemma_parse_map_head(cnt, t0);
    assert(s.skip(mh.len() as int) =~= t0);
    assert(t0 =~= enc_uint(0) + enc_uint(m.version) + t1);
    lemma_parse_uint_field(0, m.version, t1);
    assert(t0.skip(f0.len() as int) =~= t1);
    assert(t1 =~= enc_uint(1) + enc_bytes(m.from.bytes()) + t2);
    lemma_parse_id_field(1, m.from, t2);
    assert(t1.skip(f1.len() as int) =~= t2);
    assert(t2 =~= enc_uint(2) + enc_bytes(m.to.bytes()) + t3);
    lemma_parse_id_field(2, m.to, t3);
    assert(t2.skip(f2.len() as int) =~= t3);
    assert(t3 =~= enc_uint(3) + enc_text(m.method) + t4);
    lemma_parse_text_field(3, m.method, t4);
    assert(t3.skip(f3.len() as int) =~= t4);
    assert(t4 =~= enc_uint(4) + enc_bytes(m.data) + t5);
    lemma_parse_bytes_field(4, m.data, t5);
    assert(t4.skip(f4.len() as int) =~= t5);
    assert(t5 =~= enc_uint(5) + enc_uint(m.timestamp) + t6);
    lemma_parse_uint_field(5, m.timestamp, t6);
    assert(t5.skip(f5.len() as int) =~= t6);
    lemma_parse_req_tail(m.id, m.nonce, m.attributes);
}

/// Round trip: the canonical encoding of a well-formed response parses
/// back to the same response.
/// The middle fields round-trip: encoding the optional destination,
/// the data-or-error field and the timestamp and parsing them back
/// returns the same values.
#[verifier::rlimit(100)]
#[verifier::spinoff_prover]
pub proof fn lemma_parse_resp_mid(
    to: Option<IdentityV>,
    data: Result<Seq<u8>, ErrorV>,
    timestamp: u64,
    rest: Seq<u8>,
)
    requires
        match to {
            Some(t) => t.wf(),
            None => true,
        },
        match data {
            Ok(b) => b.len() < 18446744073709551616,
            Err(e) => e.message.len() < 18446744073709551616,
        },
    ensures
        ({
            let f2 = match to {
                Some(t) => enc_uint(2) + enc_bytes(t.bytes()),
                None => Seq::<u8>::empty(),
            };
            let f3 = enc_uint(4) + enc_data(data);
            let f4 = enc_uint(5) + enc_uint(timestamp);
            parse_resp_mid(f2 + f3 + f4 + rest) == Some(
                ((to, data, timestamp), (f2 + f3 + f4).len() as int),
            )
        }),
{
    let f2 = match to {
        Some(t) => enc_uint(2) + enc_bytes(t.bytes()),
        None => Seq::<u8>::empty(),
    };
    let f3 = enc_uint(4) + enc_data(data);
    let f4 = enc_uint(5) + enc_uint(timestamp);
    let t4 = f4 + rest;
    let t3 = f3 + t4;
    let s = f2 + f3 + f4 + rest;
    assert(s =~= f2 + t3);
    match to {
        Some(t) => {
            assert(s =~= enc_uint(2) + enc_bytes(t.bytes()) + t3);
            lemma_parse_id_field(2, t, t3);
            assert(s.skip(f2.len() as int) =~= t3);
        },
        None => {
            assert(s =~= t3);
            assert(s =~= enc_uint(4) + (enc_data(data) + t4));
            lemma_parse_uint(4, enc_data(data) + t4);
            assert(parse_key(s, 2) is None);
            assert(parse_id_field(s, 2) is None);
        },
    }
    assert(t3 =~= enc_uint(4) + (enc_data(data) + t4));
    lemma_parse_key(4, enc_data(data) + t4);
    assert(t3.skip(enc_uint(4).len() as int) =~= enc_data(data) + t4);
    lemma_parse_data(data, t4);
    assert(t3.skip(enc_uint(4).len() as int).skip(enc_data(data).len() as int) =~= t4);
    assert(t3.skip(enc_uint(4).len() as int + enc_data(data).len() as int) =~= t4);
    assert(t4 =~= enc_uint(5) + enc_uint(timestamp) + rest);
    lemma_parse_uint_field(5, timestamp, rest);
}

/// The trailing fields round-trip: encoding an optional id and an
/// attribute list and parsing them back returns the same values.
#[verifier::rlimit(100)]
#[verifier::spinoff_prover]
pub proof fn lemma_parse_resp_tail(id: Option<u64>, attrs: Seq<AttributeV>)
    requires
        attrs.len() < 18446744073709551616,
        forall|i: int| 0 <= i < attrs.len() ==> #[trigger] attrs[i].wf(),
    ensures
        parse_resp_tail(
            (match id {
                Some(i) => enc_uint(6) + enc_uint(i),
                None => Seq::<u8>::empty(),
            }) + (if attrs.len() > 0 {
                enc_uint(8) + enc_attr_list(attrs)
            } else {
                Seq::<u8>::empty()
            }),
        ) == Some((id, attrs)),
{
    let f5 = match id {
        Some(i) => enc_uint(6) + enc_uint(i),
        None => Seq::<u8>::empty(),
    };
    let f6 = if attrs.len() > 0 {
        enc_uint(8) + enc_attr_list(attrs)
    } else {
        Seq::<u8>::empty()
    };
    let t5 = f5 + f6;
    match id {
        Some(i) => {
            assert(t5 =~= enc_uint(6) + enc_uint(i) + f6);
            lemma_parse_uint_field(6, i, f6);
            assert(t5.skip(f5.len() as int) =~= f6);
        },
        None => {
            assert(t5 =~= f6);
            if attrs.len() > 0 {
                assert(t5 =~= enc_uint(8) + (enc_attr_list(attrs) + Seq::<u8>::empty()));
                lemma_parse_uint(8, enc_attr_list(attrs) + Seq::<u8>::empty());
                assert(parse_uint_field(t5, 6) is None);
            } else {
                assert(t5.len() == 0);
                crate::cbor::lemma_parse_head_empty(t5);
                assert(parse_uint_field(t5, 6) is None);
            }
        },
    }
    // After the id field the remaining input is exactly f6.
    if attrs.len() > 0 {
        assert(f6 =~= enc_uint(8) + (enc_attr_list(attrs) + Seq::<u8>::empty()));
        lemma_parse_key(8, enc_attr_list(attrs) + Seq::<u8>::empty());
        assert(f6.skip(enc_uint(8).len() as int) =~= enc_attr_list(attrs) + Seq::<u8>::empty());
        lemma_parse_attr_list(attrs, Seq::<u8>::empty());
        assert(f6.skip(enc_uint(8).len() as int + enc_attr_list(attrs).len() as int)
            =~= Seq::<u8>::empty());
    } else {
        assert(f6.len() == 0);
        crate::cbor::lemma_parse_head_empty(f6);
        assert(parse_key(f6, 8) is None);
        assert(Seq::<AttributeV>::empty() =~= attrs);
    }
}

/// Round trip: the canonical encoding of a well-formed response parses
/// back to the same response.
#[verifier::rlimit(100)]
#[verifier::spinoff_prover]
pub proof fn lemma_response_roundtrip(m: ResponseV)
    requires
        m.wf(),
        m.bounded(),
    ensures
        parse_response(enc_response(m)) == Some(m),
{
    let cnt = response_field_count(m);
    let mh = enc_map_head(cnt);
    let f0 = enc_uint(0) + enc_uint(m.version);
    let f1 = enc_uint(1) + enc_bytes(m.from.bytes());
    let f2 = match m.to {
        Some(t) => enc_uint(2) + enc_bytes(t.bytes()),
        None => Seq::<u8>::empty(),
    };
    let f3 = enc_uint(4) + enc_data(m.data);
    let f4 = enc_uint(5) + enc_uint(m.timestamp);
    let f5 = match m.id {
        Some(id) => enc_uint(6) + enc_uint(id),
        None => Seq::<u8>::empty(),
    };
    let f6 = if m.attributes.len() > 0 {
        enc_uint(8) + enc_attr_list(m.attributes)
    } else {
        Seq::<u8>::empty()
    };
    let s = enc_response(m);
    let t5 = f5 + f6;
    let t2 = f2 + f3 + f4 + t5;
    let t1 = f1 + t2;
    let t0 = f0 + t1;
    assert(s =~= mh + t0);
    lemma_parse_map_head(cnt, t0);
    assert(s.skip(mh.len() as int) =~= t0);
    assert(t0 =~= enc_uint(0) + enc_uint(m.version) + t1);
    lemma_parse_uint_field(0, m.version, t1);
    assert(t0.skip(f0.len() as int) =~= t1);
    assert(t1 =~= enc_uint(1) + enc_bytes(m.from.bytes()) + t2);
    lemma_parse_id_field(1, m.from, t2);
    assert(t1.skip(f1.len() as int) =~= t2);
    lemma_parse_resp_mid(m.to, m.data, m.timestamp, t5);
    assert(t2.skip((f2 + f3 + f4).len() as int) =~= t5);
    lemma_parse_resp_tail(m.id, m.attributes);
}

// ------------------------------------------------------------------
// Executable encoders.
// ------------------------------------------------------------------

/// Appending an attribute to a list appends its encoding.
pub proof fn lemma_enc_attrs_push(s: Seq<AttributeV>, a: AttributeV)
    ensures
        enc_attrs(s.push(a)) == enc_attrs(s) + enc_attr(a),
    decreases s.len(),
{
    if s.len() == 0 {
        assert(s.push(a)[0] == a);
        assert(s.push(a).skip(1) =~= Seq::<AttributeV>::empty());
        assert(enc_attrs(Seq::<AttributeV>::empty()) =~= Seq::<u8>::empty());
        assert(enc_attrs(s.push(a)) =~= enc_attr(a) + Seq::<u8>::empty());
        assert(enc_attrs(s.push(a)) =~= enc_attrs(s) + enc_attr(a));
    } else {
        assert(s.push(a)[0] == s[0]);
        assert(s.push(a).skip(1) =~= s.skip(1).push(a));
        lemma_enc_attrs_push(s.skip(1), a);
        assert(enc_attr(s[0]) + (enc_attrs(s.skip(1)) + enc_attr(a)) =~= (enc_attr(s[0])
            + enc_attrs(s.skip(1))) + enc_attr(a));
    }
}

/// Appends the encoding of one attribute.
pub fn write_attr(out: &mut Vec<u8>, a: &Attribute)
    ensures
        final(out)@ == old(out)@ + enc_attr(a@),
{
    match &a.argument {
        None => {
            write_uint(out, a.id as u64);
        },
        Some(arg) => {
            write_array_head(out, 2);
            write_uint(out, a.id as u64);
            write_bytes(out, arg);
            proof {
                assert(out@ =~= old(out)@ + enc_attr(a@));
            }
        },
    }
}

/// Appends the encoding of an error record.
pub fn write_error(out: &mut Vec<u8>, e: &ManyError)
    ensures
        final(out)@ == old(out)@ + enc_error(e@),
{
    write_map_head(out, 2);
    write_uint(out, 0);
    write_int(out, e.code);
    write_uint(out, 1);
    write_text(out, &e.message);
    proof {
        assert(out@ =~= old(out)@ + enc_error(e@));
    }
}

impl RequestMessage {
    /// The canonical encoding of this request.
    pub fn to_bytes(&self) -> (r: Vec<u8>)
        requires
            self@.wf(),
        ensures
            r@ == enc_request(self@),
    {
        let mut out: Vec<u8> = Vec::new();
        let cnt: u64 = 6 + (if self.id.is_some() {
            1u64
        } else {
            0u64
        }) + (if self.nonce.is_some() {
            1u64
        } else {
            0u64
        }) + (if self.attributes.len() > 0 {
            1u64
        } else {
            0u64
        });
        proof {
            assert(cnt == request_field_count(self@));
        }
        write_map_head(&mut out, cnt);
        write_uint(&mut out, 0);
        write_uint(&mut out, self.version);
        write_uint(&mut out, 1);
        let fb = self.from.to_vec();
        write_bytes(&mut out, &fb);
        write_uint(&mut out, 2);
        let tb = self.to.to_vec();
        write_bytes(&mut out, &tb);
        write_uint(&mut out, 3);
        write_text(&mut out, &self.method);
        write_uint(&mut out, 4);
        write_bytes(&mut out, &self.data);
        write_uint(&mut out, 5);
        write_uint(&mut out, self.timestamp);
        match self.id {
            Some(id) => {
                write_uint(&mut out, 6);
                write_uint(&mut out, id);
            },
            None => {},
        }
        match &self.nonce {
            Some(n) => {
                write_uint(&mut out, 7);
                write_bytes(&mut out, n);
            },
            None => {},
        }
        if self.attributes.len() > 0 {
            write_uint(&mut out, 8);
            write_array_head(&mut out, self.attributes.len() as u64);
            let ghost pre = out@;
            let ghost av = attrs_view(self.attributes@);
            let mut i: usize = 0;
            while i < self.attributes.len()
                invariant
                    i <= self.attributes.len(),
                    av == attrs_view(self.attributes@),
                    av.len() == self.attributes.len(),
                    out@ == pre + enc_attrs(av.take(i as int)),
                decreases self.attributes.len() - i,
            {
                write_attr(&mut out, &self.attributes[i]);
                proof {
                    assert(av.take(i + 1) =~= av.take(i as int).push(av[i as int]));
                    lemma_enc_attrs_push(av.take(i as int), av[i as int]);
                    assert(av[i as int] == self.attributes@[i as int]@);
                }
                i = i + 1;
            }
            proof {
                assert(av.take(av.len() as int) =~= av);
            }
        }
        proof {
            assert(attrs_view(self.attributes@) == self@.attributes);
            assert(out@ =~= enc_request(self@));
        }
        out
    }
}

impl ResponseMessage {
    /// The canonical encoding of this response.
    pub fn to_bytes(&self) -> (r: Vec<u8>)
        requires
            self@.wf(),
        ensures
            r@ == enc_response(self@),
    {
        let mut out: Vec<u8> = Vec::new();
        let cnt: u64 = 4 + (if self.to.is_some() {
            1u64
        } else {
            0u64
        }) + (if self.id.is_some() {
            1u64
        } else {
            0u64
        }) + (if self.attributes.len() > 0 {
            1u64
        } else {
            0u64
        });
        proof {
            assert(cnt == response_field_count(self@));
        }
        write_map_head(&mut out, cnt);
        write_uint(&mut out, 0);
        write_uint(&mut out, self.version);
        write_uint(&mut out, 1);
        let fb = self.from.to_vec();
        write_bytes(&mut out, &fb);
        match &self.to {
            Some(t) => {
                write_uint(&mut out, 2);
                let tb = t.to_vec();
                write_bytes(&mut out, &tb);
            },
            None => {},
        }
        write_uint(&mut out, 4);
        match &self.data {
            Ok(d) => {
                write_bytes(&mut out, d);
            },
            Err(e) => {
                write_error(&mut out, e);
            },
        }
        write_uint(&mut out, 5);
        write_uint(&mut out, self.timestamp);
        match self.id {
            Some(id) => {
                write_uint(&mut out, 6);
                write_uint(&mut out, id);
            },
            None => {},
        }
        if self.attributes.len() > 0 {
            write_uint(&mut out, 8);
            write_array_head(&mut out, self.attributes.len() as u64);
            let ghost pre = out@;
            let ghost av = attrs_view(self.attributes@);
            let mut i: usize = 0;
            while i < self.attributes.len()
                invariant
                    i <= self.attributes.len(),
                    av == attrs_view(self.attributes@),
                    av.len() == self.attributes.len(),
                    out@ == pre + enc_attrs(av.take(i as int)),
                decreases self.attributes.len() - i,
            {
                write_attr(&mut out, &self.attributes[i]);
                proof {
                    assert(av.take(i + 1) =~= av.take(i as int).push(av[i as int]));
                    lemma_enc_attrs_push(av.take(i as int), av[i as int]);
                    assert(av[i as int] == self.attributes@[i as int]@);
                }
                i = i + 1;
            }
            proof {
                assert(av.take(av.len() as int) =~= av);
            }
        }
        proof {
            assert(attrs_view(self.attributes@) == self@.attributes);
            assert(out@ =~= enc_response(self@));
        }
        out
    }
}

// ------------------------------------------------------------------
// Executable decoders.
// ------------------------------------------------------------------

fn read_uint_field(b: &Vec<u8>, pos: usize, key: u64) -> (r: Option<(u64, usize)>)
    requires
        pos <= b.len(),
    ensures
        match r {
            Some((v, end)) => pos < end <= b.len() && parse_uint_field(b@.skip(pos as int), key)
                == Some::<(u64, int)>((v, end - pos)),
            None => parse_uint_field(b@.skip(pos as int), key) is None,
        },
{
    let (k, p) = match read_uint(b, pos) {
        Some(x) => x,
        None => {
            return None;
        },
    };
    if k != key {
        return None;
    }
    proof {
        assert(b@.skip(pos as int).skip((p - pos) as int) =~= b@.skip(p as int));
    }
    let (v, q) = match read_uint(b, p) {
        Some(x) => x,
        None => {
            return None;
        },
    };
    Some((v, q))
}

fn read_bytes_field(b: &Vec<u8>, pos: usize, key: u64) -> (r: Option<(Vec<u8>, usize)>)
    requires
        pos <= b.len(),
    ensures
        match r {
            Some((v, end)) => pos < end <= b.len() && parse_bytes_field(b@.skip(pos as int), key)
                == Some::<(Seq<u8>, int)>((v@, end - pos)),
            None => parse_bytes_field(b@.skip(pos as int), key) is None,
        },
{
    let (k, p) = match read_uint(b, pos) {
        Some(x) => x,
        None => {
            return None;
        },
    };
    if k != key {
        return None;
    }
    proof {
        assert(b@.skip(pos as int).skip((p - pos) as int) =~= b@.skip(p as int));
    }
    let (v, q) = match read_bytes(b, p) {
        Some(x) => x,
        None => {
            return None;
        },
    };
    Some((v, q))
}

fn read_text_field(b: &Vec<u8>, pos: usize, key: u64) -> (r: Option<(Vec<u8>, usize)>)
    requires
        pos <= b.len(),
    ensures
        match r {
            Some((v, end)) => pos < end <= b.len() && parse_text_field(b@.skip(pos as int), key)
                == Some::<(Seq<u8>, int)>((v@, end - pos)),
            None => parse_text_field(b@.skip(pos as int), key) is None,
        },
{
    let (k, p) = match read_uint(b, pos) {
        Some(x) => x,
        None => {
            return None;
        },
    };
    if k != key {
        return None;
    }
    proof {
        assert(b@.skip(pos as int).skip((p - pos) as int) =~= b@.skip(p as int));
    }
    let (v, q) = match read_text(b, p) {
        Some(x) => x,
        None => {
            return None;
        },
    };
    Some((v, q))
}

fn read_id_field(b: &Vec<u8>, pos: usize, key: u64) -> (r: Option<(Identity, usize)>)
    requires
        pos <= b.len(),
    ensures
        match r {
            Some((id, end)) => pos < end <= b.len() && parse_id_field(b@.skip(pos as int), key)
                == Some::<(IdentityV, int)>((id@, end - pos)) && id@.wf(),
            None => parse_id_field(b@.skip(pos as int), key) is None,
        },
{
    match read_bytes_field(b, pos, key) {
        Some((bytes, end)) => match Identity::try_from_vec(&bytes) {
            Ok(id) => Some((id, end)),
            Err(_) => None,
        },
        None => None,
    }
}

fn read_error(b: &Vec<u8>, pos: usize) -> (r: Option<(ManyError, usize)>)
    requires
        pos <= b.len(),
    ensures
        match r {
            Some((e, end)) => pos < end <= b.len() && parse_error(b@.skip(pos as int))
                == Some::<(ErrorV, int)>((e@, end - pos)),
            None => parse_error(b@.skip(pos as int)) is None,
        },
{
    let (c, a0) = match read_map_head(b, pos) {
        Some(x) => x,
        None => {
            return None;
        },
    };
    if c != 2 {
        return None;
    }
    proof {
        assert(b@.skip(pos as int).skip((a0 - pos) as int) =~= b@.skip(a0 as int));
    }
    let (k0, a1) = match read_uint(b, a0) {
        Some(x) => x,
        None => {
            return None;
        },
    };
    if k0 != 0 {
        return None;
    }
    proof {
        assert(b@.skip(pos as int).skip((a1 - pos) as int) =~= b@.skip(a1 as int));
    }
    let (code, a2) = match read_int(b, a1) {
        Some(x) => x,
        None => {
            return None;
        },
    };
    proof {
        assert(b@.skip(pos as int).skip((a2 - pos) as int) =~= b@.skip(a2 as int));
    }
    let (k1, a3) = match read_uint(b, a2) {
        Some(x) => x,
        None => {
            return None;
        },
    };
    if k1 != 1 {
        return None;
    }
    proof {
        assert(b@.skip(pos as int).skip((a3 - pos) as int) =~= b@.skip(a3 as int));
    }
    let (msg, a4) = match read_text(b, a3) {
        Some(x) => x,
        None => {
            return None;
        },
    };
    Some((ManyError { code, message: msg }, a4))
}

fn read_data(b: &Vec<u8>, pos: usize) -> (r: Option<(Result<Vec<u8>, ManyError>, usize)>)
    requires
        pos <= b.len(),
    ensures
        match r {
            Some((d, end)) => pos < end <= b.len() && parse_data(b@.skip(pos as int)) == Some(
                (
                    match d {
                        Ok(v) => Ok(v@),
                        Err(e) => Err(e@),
                    },
                    (end - pos) as int,
                ),
            ),
            None => parse_data(b@.skip(pos as int)) is None,
        },
{
    match read_bytes(b, pos) {
        Some((v, end)) => Some((Ok(v), end)),
        None => match read_error(b, pos) {
            Some((e, end)) => Some((Err(e), end)),
            None => None,
        },
    }
}

fn read_attr(b: &Vec<u8>, pos: usize) -> (r: Option<(Attribute, usize)>)
    requires
        pos <= b.len(),
    ensures
        match r {
            Some((a, end)) => pos < end <= b.len() && parse_attr(b@.skip(pos as int))
                == Some::<(AttributeV, int)>((a@, end - pos)),
            None => parse_attr(b@.skip(pos as int)) is None,
        },
{
    match read_uint(b, pos) {
        Some((v, end)) => {
            if v <= 4294967295 {
                Some((Attribute::id(v as u32), end))
            } else {
                None
            }
        },
        None => {
            let (c, p) = match read_array_head(b, pos) {
                Some(x) => x,
                None => {
                    return None;
                },
            };
            if c != 2 {
                return None;
            }
            proof {
                assert(b@.skip(pos as int).skip((p - pos) as int) =~= b@.skip(p as int));
            }
            let (v, p2) = match read_uint(b, p) {
                Some(x) => x,
                None => {
                    return None;
                },
            };
            if v > 4294967295 {
                return None;
            }
            proof {
                assert(b@.skip(pos as int).skip((p2 - pos) as int) =~= b@.skip(p2 as int));
            }
            let (arg, p3) = match read_bytes(b, p2) {
                Some(x) => x,
                None => {
                    return None;
                },
            };
            Some((Attribute::with_argument(v as u32, arg), p3))
        },
    }
}

fn read_attrs(b: &Vec<u8>, pos: usize, n: u64) -> (r: Option<(Vec<Attribute>, usize)>)
    requires
        pos <= b.len(),
    ensures
        match r {
            Some((v, end)) => pos <= end <= b.len() && parse_attrs(b@.skip(pos as int), n as nat)
                == Some::<(Seq<AttributeV>, int)>((attrs_view(v@), end - pos)),
            None => parse_attrs(b@.skip(pos as int), n as nat) is None,
        },
    decreases n,
{
    if n == 0 {
        let v: Vec<Attribute> = Vec::new();
        proof {
            assert(attrs_view(v@) =~= Seq::<AttributeV>::empty());
        }
        Some((v, pos))
    } else {
        let (a, end) = match read_attr(b, pos) {
            Some(x) => x,
            None => {
                return None;
            },
        };
        proof {
            assert(b@.skip(pos as int).skip((end - pos) as int) =~= b@.skip(end as int));
        }
        match read_attrs(b, end, n - 1) {
            Some((tail, end2)) => {
                let ghost tv = tail@;
                let mut v = tail;
                v.insert(0, a);
                proof {
                    assert(v@ == tv.insert(0, a));
                    assert(attrs_view(v@) =~= seq![a@] + attrs_view(tv));
                }
                Some((v, end2))
            },
            None => None,
        }
    }
}

fn read_attr_list(b: &Vec<u8>, pos: usize) -> (r: Option<(Vec<Attribute>, usize)>)
    requires
        pos <= b.len(),
    ensures
        match r {
            Some((v, end)) => pos <= end <= b.len() && parse_attr_list(b@.skip(pos as int))
                == Some::<(Seq<AttributeV>, int)>((attrs_view(v@), end - pos)),
            None => parse_attr_list(b@.skip(pos as int)) is None,
        },
{
    let (n, p) = match read_array_head(b, pos) {
        Some(x) => x,
        None => {
            return None;
        },
    };
    proof {
        assert(b@.skip(pos as int).skip((p - pos) as int) =~= b@.skip(p as int));
    }
    match read_attrs(b, p, n) {
        Some((v, end)) => Some((v, end)),
        None => None,
    }
}

impl RequestMessage {
    /// Decodes a canonical request; fails on anything the canonical
    /// encoder cannot produce.
    #[verifier::rlimit(100)]
    #[verifier::spinoff_prover]
    pub fn from_bytes(b: &Vec<u8>) -> (r: Result<RequestMessage, ManyError>)
        ensures
            match parse_request(b@) {
                Some(mv) => r matches Ok(m) && m@ == mv,
                None => r matches Err(e) && e.code == crate::error::CODE_MALFORMED_ENVELOPE,
            },
    {
        proof {
            assert(b@.skip(0) =~= b@);
        }
        let (cnt, p0) = match read_map_head(b, 0) {
            Some(x) => x,
            None => {
                return Err(ManyError::malformed_envelope());
            },
        };
        if cnt < 6 || cnt > 9 {
            return Err(ManyError::malformed_envelope());
        }
        let (version, p1) = match read_uint_field(b, p0, 0) {
            Some(x) => x,
            None => {
                return Err(ManyError::malformed_envelope());
            },
        };
        proof {
            assert(b@.skip(p0 as int).skip((p1 - p0) as int) =~= b@.skip(p1 as int));
        }
        let (from, p2) = match read_id_field(b, p1, 1) {
            Some(x) => x,
            None => {
                return Err(ManyError::malformed_envelope());
            },
        };
        proof {
            assert(b@.skip(p1 as int).skip((p2 - p1) as int) =~= b@.skip(p2 as int));
        }
        let (to, p3) = match read_id_field(b, p2, 2) {
            Some(x) => x,
            None => {
                return Err(ManyError::malformed_envelope());
            },
        };
        proof {
            assert(b@.skip(p2 as int).skip((p3 - p2) as int) =~= b@.skip(p3 as int));
        }
        let (method, p4) = match read_text_field(b, p3, 3) {
            Some(x) => x,
            None => {
                return Err(ManyError::malformed_envelope());
            },
        };
        proof {
            assert(b@.skip(p3 as int).skip((p4 - p3) as int) =~= b@.skip(p4 as int));
        }
        let (data, p5) = match read_bytes_field(b, p4, 4) {
            Some(x) => x,
            None => {
                return Err(ManyError::malformed_envelope());
            },
        };
        proof {
            assert(b@.skip(p4 as int).skip((p5 - p4) as int) =~= b@.skip(p5 as int));
        }
        let (timestamp, p6) = match read_uint_field(b, p5, 5) {
            Some(x) => x,
            None => {
                return Err(ManyError::malformed_envelope());
            },
        };
        proof {
            assert(b@.skip(p5 as int).skip((p6 - p5) as int) =~= b@.skip(p6 as int));
        }
        // Trailing fields: optional id, nonce and attributes.
        let ghost s7 = b@.skip(p6 as int);
        let (idv, p7) = match read_uint_field(b, p6, 6) {
            Some((v, e)) => (Some(v), e),
            None => (None, p6),
        };
        proof {
            assert(b@.skip(p6 as int).skip((p7 - p6) as int) =~= b@.skip(p7 as int));
        }
        let (nonce, p8) = match read_bytes_field(b, p7, 7) {
            Some((n, e)) => (Some(n), e),
            None => (None, p7),
        };
        proof {
            assert(b@.skip(p7 as int).skip((p8 - p7) as int) =~= b@.skip(p8 as int));
        }
        let (attributes, p9) = match read_uint(b, p8) {
            Some((k8, pk)) => {
                if k8 != 8 {
                    return Err(ManyError::malformed_envelope());
                }
                proof {
                    assert(b@.skip(p8 as int).skip((pk - p8) as int) =~= b@.skip(pk as int));
                }
                match read_attr_list(b, pk) {
                    Some((v, e)) => {
                        if v.len() == 0 {
                            return Err(ManyError::malformed_envelope());
                        }
                        (v, e)
                    },
                    None => {
                        return Err(ManyError::malformed_envelope());
                    },
                }
            },
            None => (Vec::new(), p8),
        };
        proof {
            assert(b@.skip(p8 as int).skip((p9 - p8) as int) =~= b@.skip(p9 as int));
        }
        if p9 != b.len() {
            return Err(ManyError::malformed_envelope());
        }
        proof {
            if attributes@.len() == 0 {
                assert(attrs_view(attributes@) =~= Seq::<AttributeV>::empty());
            }
            assert(parse_req_tail(s7) == Some(
                (
                    idv,
                    match nonce {
                        Some(ref n) => Some(n@),
                        None => None,
                    },
                    attrs_view(attributes@),
                ),
            ));
        }
        let expected: u64 = 6 + (if idv.is_some() {
            1u64
        } else {
            0u64
        }) + (if nonce.is_some() {
            1u64
        } else {
            0u64
        }) + (if attributes.len() > 0 {
            1u64
        } else {
            0u64
        });
        if cnt != expected {
            return Err(ManyError::malformed_envelope());
        }
        let m = RequestMessage { version, from, to, method, data, timestamp, id: idv, nonce, attributes };
        proof {
            assert(attrs_view(m.attributes@) == m@.attributes);
            assert(expected == request_field_count(m@));
        }
        Ok(m)
    }
}

impl ResponseMessage {
    /// Decodes a canonical response; fails on anything the canonical
    /// encoder cannot produce.
    #[verifier::rlimit(100)]
    #[verifier::spinoff_prover]
    pub fn from_bytes(b: &Vec<u8>) -> (r: Result<ResponseMessage, ManyError>)
        ensures
            match parse_response(b@) {
                Some(mv) => r matches Ok(m) && m@ == mv,
                None => r matches Err(e) && e.code == crate::error::CODE_MALFORMED_ENVELOPE,
            },
    {
        proof {
            assert(b@.skip(0) =~= b@);
        }
        let (cnt, p0) = match read_map_head(b, 0) {
            Some(x) => x,
            None => {
                return Err(ManyError::malformed_envelope());
            },
        };
        let (version, p1) = match read_uint_field(b, p0, 0) {
            Some(x) => x,
            None => {
                return Err(ManyError::malformed_envelope());
            },
        };
        proof {
            assert(b@.skip(p0 as int).skip((p1 - p0) as int) =~= b@.skip(p1 as int));
        }
        let (from, p2) = match read_id_field(b, p1, 1) {
            Some(x) => x,
            None => {
                return Err(ManyError::malformed_envelope());
            },
        };
        proof {
            assert(b@.skip(p1 as int).skip((p2 - p1) as int) =~= b@.skip(p2 as int));
        }
        // Middle fields: optional destination, data, timestamp.
        let ghost s3 = b@.skip(p2 as int);
        let (to, p3) = match read_id_field(b, p2, 2) {
            Some((t, e)) => (Some(t), e),
            None => (None, p2),
        };
        proof {
            assert(b@.skip(p2 as int).skip((p3 - p2) as int) =~= b@.skip(p3 as int));
        }
        let (k4, p4) = match read_uint(b, p3) {
            Some(x) => x,
            None => {
                return Err(ManyError::malformed_envelope());
            },
        };
        if k4 != 4 {
            return Err(ManyError::malformed_envelope());
        }
        proof {
            assert(b@.skip(p3 as int).skip((p4 - p3) as int) =~= b@.skip(p4 as int));
        }
        let (data, p5) = match read_data(b, p4) {
            Some(x) => x,
            None => {
                return Err(ManyError::malformed_envelope());
            },
        };
        proof {
            assert(b@.skip(p3 as int).skip((p5 - p3) as int) =~= b@.skip(p5 as int));
        }
        let (timestamp, p6) = match read_uint_field(b, p5, 5) {
            Some(x) => x,
            None => {
                return Err(ManyError::malformed_envelope());
            },
        };
        proof {
            assert(parse_resp_mid(s3) == Some::<((Option<IdentityV>, Result<Seq<u8>, ErrorV>, u64),
                int)>(
                (
                    (
                        match to {
                            Some(ref t) => Some(t@),
                            None => None,
                        },
                        match data {
                            Ok(ref v) => Ok(v@),
                            Err(ref e) => Err(e@),
                        },
                        timestamp,
                    ),
                    p6 - p2,
                ),
            ));
            assert(b@.skip(p2 as int).skip((p6 - p2) as int) =~= b@.skip(p6 as int));
        }
        // Trailing fields: optional id and attributes.
        let ghost s6 = b@.skip(p6 as int);
        let (idv, p7) = match read_uint_field(b, p6, 6) {
            Some((v, e)) => (Some(v), e),
            None => (None, p6),
        };
        proof {
            assert(b@.skip(p6 as int).skip((p7 - p6) as int) =~= b@.skip(p7 as int));
        }
        let (attributes, p9, attrs_present) = match read_uint(b, p7) {
            Some((k8, p8)) => {
                if k8 != 8 {
                    return Err(ManyError::malformed_envelope());
                }
                proof {
                    assert(b@.skip(p7 as int).skip((p8 - p7) as int) =~= b@.skip(p8 as int));
                }
                match read_attr_list(b, p8) {
                    Some((v, e)) => {
                        if v.len() == 0 {
                            return Err(ManyError::malformed_envelope());
                        }
                        (v, e, true)
                    },
                    None => {
                        return Err(ManyError::malformed_envelope());
                    },
                }
            },
            None => (Vec::new(), p7, false),
        };
        proof {
            assert(b@.skip(p7 as int).skip((p9 - p7) as int) =~= b@.skip(p9 as int));
        }
        if p9 != b.len() {
            return Err(ManyError::malformed_envelope());
        }
        proof {
            if !attrs_present {
                assert(attrs_view(attributes@) =~= Seq::<AttributeV>::empty());
            }
            assert(parse_resp_tail(s6) == Some::<(Option<u64>, Seq<AttributeV>)>(
                (idv, attrs_view(attributes@)),
            ));
        }
        let expected: u64 = 4 + (if to.is_some() {
            1u64
        } else {
            0u64
        }) + (if idv.is_some() {
            1u64
        } else {
            0u64
        }) + (if attributes.len() > 0 {
            1u64
        } else {
            0u64
        });
        if cnt != expected {
            return Err(ManyError::malformed_envelope());
        }
        let m = ResponseMessage { version, from, to, data, timestamp, id: idv, attributes };
        proof {
            assert(attrs_view(m.attributes@) == m@.attributes);
            assert(expected == response_field_count(m@));
        }
        Ok(m)
    }
}

} // verus!
