//! Identities: a tagged binary value of at most 32 bytes. An identity is
//! anonymous, or derived from a public key (one tag byte followed by the
//! 28-byte SHA-224 of the COSE key), optionally extended with a 3-byte
//! big-endian subresource index.

use vstd::prelude::*;

use crate::error::ManyError;

verus! {

pub const TAG_ANONYMOUS: u8 = 0;
pub const TAG_PUBLIC_KEY: u8 = 1;
pub const TAG_SUBRESOURCE: u8 = 128;

/// Largest subresource index: 2^24 - 1.
pub const MAX_SUBRESOURCE_ID: u32 = 16777215;

/// Mathematical model of an identity.
pub enum IdentityV {
    Anonymous,
    PublicKey { hash: Seq<u8> },
    Subresource { hash: Seq<u8>, sub_id: u32 },
}

impl IdentityV {
    /// A well-formed identity carries a 28-byte hash and a subresource
    /// index of at most 24 bits.
    pub open spec fn wf(self) -> bool {
        match self {
            IdentityV::Anonymous => true,
            IdentityV::PublicKey { hash } => hash.len() == 28,
            IdentityV::Subresource { hash, sub_id } => hash.len() == 28 && sub_id
                <= MAX_SUBRESOURCE_ID,
        }
    }

    pub open spec fn is_anonymous(self) -> bool {
        self is Anonymous
    }

    /// The canonical binary form.
    pub open spec fn bytes(self) -> Seq<u8> {
        match self {
            IdentityV::Anonymous => seq![TAG_ANONYMOUS],
            IdentityV::PublicKey { hash } => seq![TAG_PUBLIC_KEY] + hash,
            IdentityV::Subresource { hash, sub_id } => seq![TAG_SUBRESOURCE] + hash + seq![
                (sub_id as int / 65536) as u8,
                ((sub_id as int / 256) % 256) as u8,
                (sub_id as int % 256) as u8,
            ],
        }
    }

    /// The subresource extension of a public-key identity.
    pub open spec fn with_sub(self, sub_id: u32) -> IdentityV
        recommends
            self is PublicKey,
    {
        IdentityV::Subresource { hash: self->PublicKey_hash, sub_id }
    }

    /// The identity without its subresource index.
    pub open spec fn parent(self) -> IdentityV {
        match self {
            IdentityV::Subresource { hash, sub_id } => IdentityV::PublicKey { hash },
            other => other,
        }
    }
}

/// The canonical binary form is injective on well-formed identities.
pub proof fn lemma_identity_bytes_injective(a: IdentityV, b: IdentityV)
    requires
        a.wf(),
        b.wf(),
        a.bytes() == b.bytes(),
    ensures
        a == b,
{
    assert(a.bytes()[0] == b.bytes()[0]);
    match (a, b) {
        (IdentityV::PublicKey { hash: ha }, IdentityV::PublicKey { hash: hb }) => {
            assert forall|i: int| 0 <= i < 28 implies ha[i] == hb[i] by {
                assert(a.bytes()[i + 1] == ha[i]);
                assert(b.bytes()[i + 1] == hb[i]);
            }
            assert(ha =~= hb);
        },
        (
            IdentityV::Subresource { hash: ha, sub_id: sa },
            IdentityV::Subresource { hash: hb, sub_id: sb },
        ) => {
            assert forall|i: int| 0 <= i < 28 implies ha[i] == hb[i] by {
                assert(a.bytes()[i + 1] == ha[i]);
                assert(b.bytes()[i + 1] == hb[i]);
            }
            assert(ha =~= hb);
            assert(a.bytes()[29] == (sa as int / 65536) as u8);
            assert(a.bytes()[30] == ((sa as int / 256) % 256) as u8);
            assert(a.bytes()[31] == (sa as int % 256) as u8);
            assert(b.bytes()[29] == (sb as int / 65536) as u8);
            assert(b.bytes()[30] == ((sb as int / 256) % 256) as u8);
            assert(b.bytes()[31] == (sb as int % 256) as u8);
            lemma_sub_id_bytes(sa);
            lemma_sub_id_bytes(sb);
            assert(sa as int / 65536 == sb as int / 65536);
            assert((sa as int / 256) % 256 == (sb as int / 256) % 256);
            assert(sa as int % 256 == sb as int % 256);
            assert(sa as int == (sa as int / 65536) * 65536 + ((sa as int / 256) % 256) * 256 + sa
                as int % 256);
            assert(sa == sb);
        },
        (IdentityV::Anonymous, IdentityV::Anonymous) => {},
        _ => {
            assert(match a {
                IdentityV::Anonymous => a.bytes()[0] == TAG_ANONYMOUS,
                IdentityV::PublicKey { hash } => a.bytes()[0] == TAG_PUBLIC_KEY,
                IdentityV::Subresource { hash, sub_id } => a.bytes()[0] == TAG_SUBRESOURCE,
            });
            assert(match b {
                IdentityV::Anonymous => b.bytes()[0] == TAG_ANONYMOUS,
                IdentityV::PublicKey { hash } => b.bytes()[0] == TAG_PUBLIC_KEY,
                IdentityV::Subresource { hash, sub_id } => b.bytes()[0] == TAG_SUBRESOURCE,
            });
            assert(false);
        },
    }
}

/// Big-endian 3-byte decomposition of a 24-bit subresource index.
proof fn lemma_sub_id_bytes(s: u32)
    requires
        s <= MAX_SUBRESOURCE_ID,
    ensures
        (s as int / 65536) * 65536 + ((s as int / 256) % 256) * 256 + s as int % 256 == s as int,
        0 <= s as int / 65536 < 256,
{
    let n = s as int;
    vstd::arithmetic::div_mod::lemma_fundamental_div_mod(n, 256);
    vstd::arithmetic::div_mod::lemma_fundamental_div_mod(n / 256, 256);
    vstd::arithmetic::div_mod::lemma_div_denominator(n, 256, 256);
    vstd::arithmetic::div_mod::lemma_div_is_ordered(n, 16777215, 65536);
    vstd::arithmetic::div_mod::lemma_div_pos_is_pos(n, 65536);
}

/// Parses the canonical binary form of an identity.
pub open spec fn parse_identity(b: Seq<u8>) -> Option<IdentityV> {
    if b.len() == 1 && b[0] == TAG_ANONYMOUS {
        Some(IdentityV::Anonymous)
    } else if b.len() == 29 && b[0] == TAG_PUBLIC_KEY {
        Some(IdentityV::PublicKey { hash: b.subrange(1, 29) })
    } else if b.len() == 32 && b[0] == TAG_SUBRESOURCE {
        Some(
            IdentityV::Subresource {
                hash: b.subrange(1, 29),
                sub_id: (b[29] as int * 65536 + b[30] as int * 256 + b[31] as int) as u32,
            },
        )
    } else {
        None
    }
}

/// A parsed identity is well formed and re-encodes to the parsed bytes.
pub proof fn lemma_parse_identity_wf(b: Seq<u8>)
    requires
        parse_identity(b) is Some,
    ensures
        parse_identity(b)->Some_0.wf(),
        parse_identity(b)->Some_0.bytes() == b,
{
    let iv = parse_identity(b)->Some_0;
    if b.len() == 1 && b[0] == TAG_ANONYMOUS {
        assert(iv.bytes() =~= b);
    } else if b.len() == 29 && b[0] == TAG_PUBLIC_KEY {
        assert(iv.bytes() =~= b);
    } else {
        let sub_id = (b[29] as int * 65536 + b[30] as int * 256 + b[31] as int) as u32;
        lemma_sub_id_bytes(sub_id);
        vstd::arithmetic::div_mod::lemma_fundamental_div_mod_converse(
            sub_id as int,
            65536,
            b[29] as int,
            (b[30] as int) * 256 + b[31] as int,
        );
        vstd::arithmetic::div_mod::lemma_fundamental_div_mod_converse(
            (b[30] as int) * 256 + b[31] as int,
            256,
            b[30] as int,
            b[31] as int,
        );
        vstd::arithmetic::div_mod::lemma_div_denominator(sub_id as int, 256, 256);
        assert(iv.bytes() =~= b);
    }
}

/// The canonical form of a well-formed identity parses back to it.
pub proof fn lemma_parse_identity_roundtrip(i: IdentityV)
    requires
        i.wf(),
    ensures
        parse_identity(i.bytes()) == Some(i),
{
    let b = i.bytes();
    match i {
        IdentityV::Anonymous => {},
        IdentityV::PublicKey { hash } => {
            assert(b.len() == 29 && b[0] == TAG_PUBLIC_KEY);
            assert(b.subrange(1, 29) =~= hash);
        },
        IdentityV::Subresource { hash, sub_id } => {
            assert(b.len() == 32 && b[0] == TAG_SUBRESOURCE);
            assert(b.subrange(1, 29) =~= hash);
            lemma_sub_id_bytes(sub_id);
            assert(b[29] == (sub_id as int / 65536) as u8);
            assert(b[30] == ((sub_id as int / 256) % 256) as u8);
            assert(b[31] == (sub_id as int % 256) as u8);
        },
    }
}

/// An identity value. The binary and textual codecs below are total on
/// well-formed identities and reject everything else.
#[derive(Debug, Clone, PartialEq, Eq, Hash)]
pub enum Identity {
    Anonymous,
    PublicKey { hash: Vec<u8> },
    Subresource { hash: Vec<u8>, sub_id: u32 },
}

impl View for Identity {
    type V = IdentityV;

    open spec fn view(&self) -> IdentityV {
        match self {
            Identity::Anonymous => IdentityV::Anonymous,
            Identity::PublicKey { hash } => IdentityV::PublicKey { hash: hash@ },
            Identity::Subresource { hash, sub_id } => IdentityV::Subresource {
                hash: hash@,
                sub_id: *sub_id,
            },
        }
    }
}

impl Identity {
    pub fn anonymous() -> (r: Identity)
        ensures
            r@ == IdentityV::Anonymous,
    {
        Identity::Anonymous
    }

    /// The public-key identity over a 28-byte hash.
    pub fn from_hash(hash: Vec<u8>) -> (r: Identity)
        requires
            hash@.len() == 28,
        ensures
            r@ == (IdentityV::PublicKey { hash: hash@ }),
            r@.wf(),
    {
        Identity::PublicKey { hash }
    }

    pub fn is_anonymous(&self) -> (r: bool)
        ensures
            r == self@.is_anonymous(),
    {
        match self {
            Identity::Anonymous => true,
            _ => false,
        }
    }

    pub fn dup(&self) -> (r: Identity)
        ensures
            r@ == self@,
    {
        match self {
            Identity::Anonymous => Identity::Anonymous,
            Identity::PublicKey { hash } => Identity::PublicKey {
                hash: crate::error::copy_bytes(hash),
            },
            Identity::Subresource { hash, sub_id } => Identity::Subresource {
                hash: crate::error::copy_bytes(hash),
                sub_id: *sub_id,
            },
        }
    }

    /// Structural equality.
    pub fn equals(&self, other: &Identity) -> (r: bool)
        ensures
            r == (self@ == other@),
    {
        match (self, other) {
            (Identity::Anonymous, Identity::Anonymous) => true,
            (Identity::PublicKey { hash: ha }, Identity::PublicKey { hash: hb }) => {
                let r = bytes_eq(ha, hb);
                proof {
                    if ha@ == hb@ {
                        assert(self@ == other@);
                    }
                }
                r
            },
            (
                Identity::Subresource { hash: ha, sub_id: sa },
                Identity::Subresource { hash: hb, sub_id: sb },
            ) => {
                let r = bytes_eq(ha, hb) && *sa == *sb;
                proof {
                    if ha@ == hb@ && sa == sb {
                        assert(self@ == other@);
                    }
                }
                r
            },
            _ => false,
        }
    }

    /// Extends a public-key identity with a subresource index. Fails on an
    /// anonymous or already subresourced identity, and on an index above
    /// 2^24 - 1.
    pub fn with_subresource_id(&self, sub_id: u32) -> (r: Result<Identity, ManyError>)
        ensures
            match r {
                Ok(id) => self@ is PublicKey && sub_id <= MAX_SUBRESOURCE_ID && id@ == self@.with_sub(
                    sub_id,
                ) && (self@.wf() ==> id@.wf()),
                Err(e) => !(self@ is PublicKey && sub_id <= MAX_SUBRESOURCE_ID),
            },
    {
        if sub_id > MAX_SUBRESOURCE_ID {
            return Err(ManyError::invalid_textual());
        }
        match self {
            Identity::PublicKey { hash } => Ok(
                Identity::Subresource { hash: crate::error::copy_bytes(hash), sub_id },
            ),
            _ => Err(ManyError::invalid_textual()),
        }
    }

    /// The identity without its subresource index.
    pub fn parent(&self) -> (r: Identity)
        ensures
            r@ == self@.parent(),
    {
        match self {
            Identity::Subresource { hash, sub_id } => Identity::PublicKey {
                hash: crate::error::copy_bytes(hash),
            },
            other => other.dup(),
        }
    }

    /// The canonical binary form.
    pub fn to_vec(&self) -> (r: Vec<u8>)
        requires
            self@.wf(),
        ensures
            r@ == self@.bytes(),
    {
        let mut out: Vec<u8> = Vec::new();
        match self {
            Identity::Anonymous => {
                out.push(TAG_ANONYMOUS);
            },
            Identity::PublicKey { hash } => {
                out.push(TAG_PUBLIC_KEY);
                crate::cbor::push_all(&mut out, hash);
            },
            Identity::Subresource { hash, sub_id } => {
                out.push(TAG_SUBRESOURCE);
                crate::cbor::push_all(&mut out, hash);
                out.push((*sub_id / 65536) as u8);
                out.push(((*sub_id / 256) % 256) as u8);
                out.push((*sub_id % 256) as u8);
            },
        }
        proof {
            assert(out@ =~= self@.bytes());
        }
        out
    }

    /// Parses the canonical binary form; rejects lengths outside the
    /// permitted set and unknown tag bytes.
    pub fn try_from_vec(b: &Vec<u8>) -> (r: Result<Identity, ManyError>)
        ensures
            match r {
                Ok(id) => id@.wf() && id@.bytes() == b@ && parse_identity(b@) == Some(id@),
                Err(e) => e.code == crate::error::CODE_INVALID_TEXTUAL && (forall|iv: IdentityV|
                    iv.wf() ==> iv.bytes() != b@) && parse_identity(b@) is None,
            },
    {
        if b.len() == 1 && b[0] == TAG_ANONYMOUS {
            let id = Identity::Anonymous;
            proof {
                assert(id@.bytes() =~= b@);
                lemma_parse_identity_roundtrip(id@);
            }
            Ok(id)
        } else if b.len() == 29 && b[0] == TAG_PUBLIC_KEY {
            let hash = crate::cbor::copy_range(b, 1, 29);
            let id = Identity::PublicKey { hash };
            proof {
                assert(id@.bytes() =~= b@);
                lemma_parse_identity_roundtrip(id@);
            }
            Ok(id)
        } else if b.len() == 32 && b[0] == TAG_SUBRESOURCE {
            let hash = crate::cbor::copy_range(b, 1, 29);
            let sub_id: u32 = (b[29] as u32) * 65536 + (b[30] as u32) * 256 + (b[31] as u32);
            let id = Identity::Subresource { hash, sub_id };
            proof {
                lemma_sub_id_bytes(sub_id);
                vstd::arithmetic::div_mod::lemma_fundamental_div_mod_converse(
                    sub_id as int,
                    65536,
                    b@[29] as int,
                    (b@[30] as int) * 256 + b@[31] as int,
                );
                vstd::arithmetic::div_mod::lemma_fundamental_div_mod_converse(
                    (b@[30] as int) * 256 + b@[31] as int,
                    256,
                    b@[30] as int,
                    b@[31] as int,
                );
                vstd::arithmetic::div_mod::lemma_div_denominator(sub_id as int, 256, 256);
                assert(id@.bytes() =~= b@);
                lemma_parse_identity_roundtrip(id@);
            }
            Ok(id)
        } else {
            proof {
                assert forall|iv: IdentityV| iv.wf() implies iv.bytes() != b@ by {
                    if iv.bytes() == b@ {
                        match iv {
                            IdentityV::Anonymous => {
                                assert(b@.len() == 1 && b@[0] == TAG_ANONYMOUS);
                            },
                            IdentityV::PublicKey { hash } => {
                                assert(b@.len() == 29 && b@[0] == TAG_PUBLIC_KEY);
                            },
                            IdentityV::Subresource { hash, sub_id } => {
                                assert(b@.len() == 32 && b@[0] == TAG_SUBRESOURCE);
                            },
                        }
                    }
                }
                if parse_identity(b@) is Some {
                    lemma_parse_identity_wf(b@);
                    assert(false);
                }
            }
            Err(ManyError::invalid_textual())
        }
    }
}

/// Subresource round trip: extending a public-key identity and taking the
/// parent returns the original identity.
pub proof fn lemma_with_subresource_parent(i: IdentityV, sub_id: u32)
    requires
        i is PublicKey,
    ensures
        i.with_sub(sub_id).parent() == i,
{
}

/// Byte-vector equality.
pub fn bytes_eq(a: &Vec<u8>, b: &Vec<u8>) -> (r: bool)
    ensures
        r == (a@ == b@),
{
    if a.len() != b.len() {
        return false;
    }
    let mut i: usize = 0;
    while i < a.len()
        invariant
            i <= a.len(),
            a.len() == b.len(),
            forall|j: int| 0 <= j < i ==> a@[j] == b@[j],
        decreases a.len() - i,
    {
        if a[i] != b[i] {
            return false;
        }
        i = i + 1;
    }
    proof {
        assert(a@ =~= b@);
    }
    true
}

} // verus!
