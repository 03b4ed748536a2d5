//! The key/value-store module: a typed backend trait and the dispatcher
//! that decodes arguments, calls the backend and encodes results.

use vstd::prelude::*;

use crate::cbor::{enc_bytes, enc_map_head, enc_uint, write_bytes, write_map_head, write_uint};
use crate::error::ManyError;
use crate::identity::Identity;
use crate::message::AttributeV;
use crate::module::{endpoint_name, lemma_camel_plain, read_arg_map, ArgShape, CallResult,
    EndpointDecl, EndpointDeclV, EndpointManyAttribute, ManyModule, ManyModuleInfo, ModuleBackend};

verus! {

/// The attribute id the key/value-store module advertises.
pub const KVSTORE_ATTRIBUTE_ID: u32 = 3;

/// Argument of `kvstore.info`: empty.
#[derive(Debug, Clone, PartialEq, Eq)]
pub struct InfoArg {}

/// Result of `kvstore.info`: the store's hash.
#[derive(Debug, Clone, PartialEq, Eq)]
pub struct InfoReturns {
    pub hash: Vec<u8>,
}

/// Argument of `kvstore.get`: the key.
#[derive(Debug, Clone, PartialEq, Eq)]
pub struct GetArgs {
    pub key: Vec<u8>,
}

/// Result of `kvstore.get`: the value, when present.
#[derive(Debug, Clone, PartialEq, Eq)]
pub struct GetReturns {
    pub value: Option<Vec<u8>>,
}

/// The backend a key/value-store module dispatches to.
pub trait KvStoreModuleBackend: Sized {
    fn info(&mut self, sender: &Identity, args: InfoArg) -> Result<InfoReturns, ManyError>;

    fn get(&mut self, sender: &Identity, args: GetArgs) -> Result<GetReturns, ManyError>;
}

/// The dispatcher binding a backend to the module's two endpoints.
pub struct KvStoreModule<T: KvStoreModuleBackend> {
    pub backend: T,
}

/// Encoding of an info result: `{0: hash}`.
pub open spec fn enc_info_returns(hash: Seq<u8>) -> Seq<u8> {
    enc_map_head(1) + enc_uint(0) + enc_bytes(hash)
}

/// Encoding of a get result: `{0: value}` or `{}`.
pub open spec fn enc_get_returns(value: Option<Seq<u8>>) -> Seq<u8> {
    match value {
        Some(v) => enc_map_head(1) + enc_uint(0) + enc_bytes(v),
        None => enc_map_head(0),
    }
}

impl InfoReturns {
    pub fn to_bytes(&self) -> (r: Vec<u8>)
        ensures
            r@ == enc_info_returns(self.hash@),
    {
        let mut out: Vec<u8> = Vec::new();
        write_map_head(&mut out, 1);
        write_uint(&mut out, 0);
        write_bytes(&mut out, &self.hash);
        proof {
            assert(out@ =~= enc_info_returns(self.hash@));
        }
        out
    }

    /// Decodes an info result (the same shape as a `{0: bytes}` map).
    pub fn from_bytes(b: &Vec<u8>) -> (r: Option<InfoReturns>)
        ensures
            match r {
                Some(v) => crate::module::parse_arg_map(b@) == Some(v.hash@),
                None => crate::module::parse_arg_map(b@) is None,
            },
    {
        match read_arg_map(b) {
            Some(hash) => Some(InfoReturns { hash }),
            None => None,
        }
    }
}

impl GetReturns {
    pub fn to_bytes(&self) -> (r: Vec<u8>)
        ensures
            r@ == enc_get_returns(
                match self.value {
                    Some(ref v) => Some(v@),
                    None => None,
                },
            ),
    {
        let mut out: Vec<u8> = Vec::new();
        match &self.value {
            Some(v) => {
                write_map_head(&mut out, 1);
                write_uint(&mut out, 0);
                write_bytes(&mut out, v);
            },
            None => {
                write_map_head(&mut out, 0);
            },
        }
        proof {
            assert(out@ =~= enc_get_returns(
                match self.value {
                    Some(ref v) => Some(v@),
                    None => None,
                },
            ));
        }
        out
    }

    /// Decodes a get result: a `{0: bytes}` map or the empty map.
    pub fn from_bytes(b: &Vec<u8>) -> (r: Option<GetReturns>)
        ensures
            match r {
                Some(v) => match v.value {
                    Some(ref x) => crate::module::parse_arg_map(b@) == Some(x@),
                    None => b@ == crate::cbor::enc_map_head(0),
                },
                None => crate::module::parse_arg_map(b@) is None && b@ != crate::cbor::enc_map_head(
                    0,
                ),
            },
    {
        match read_arg_map(b) {
            Some(value) => Some(GetReturns { value: Some(value) }),
            None => {
                let mut empty_map: Vec<u8> = Vec::new();
                write_map_head(&mut empty_map, 0);
                if crate::identity::bytes_eq(b, &empty_map) {
                    Some(GetReturns { value: None })
                } else {
                    None
                }
            },
        }
    }
}

impl<T: KvStoreModuleBackend> ModuleBackend for KvStoreModule<T> {
    /// Endpoint 0 answers with an encoded info record, endpoint 1
    /// decodes its `{0: key}` argument and answers with an encoded get
    /// record, and any other index is an unknown method.
    open spec fn call_ensures(
        pre: KvStoreModule<T>,
        post: KvStoreModule<T>,
        index: int,
        sender: crate::identity::IdentityV,
        data: Seq<u8>,
        r: Result<crate::module::CallResultV, crate::error::ErrorV>,
    ) -> bool {
        &&& index == 0 ==> (match r {
            Ok(c) => c matches crate::module::CallResultV::Bytes(b) && (exists|h: Seq<u8>|
                b == enc_info_returns(h)),
            Err(e) => true,
        })
        &&& index == 1 ==> (match r {
            Ok(c) => crate::module::parse_arg_map(data) is Some && (
            c matches crate::module::CallResultV::Bytes(b) && (exists|v: Option<Seq<u8>>|
                b == enc_get_returns(v))),
            Err(e) => true,
        })
        &&& index >= 2 ==> (r matches Err(e) && e.code == crate::error::CODE_UNKNOWN_METHOD)
    }

    fn call(&mut self, index: usize, sender: &Identity, data: &Vec<u8>) -> (r: Result<
        CallResult,
        ManyError,
    >) {
        if index == 0 {
            let r = match self.backend.info(sender, InfoArg {  }) {
                Ok(r) => r,
                Err(e) => {
                    return Err(e);
                },
            };
            Ok(CallResult::Bytes(r.to_bytes()))
        } else if index == 1 {
            let key = match read_arg_map(data) {
                Some(k) => k,
                None => {
                    return Err(ManyError::deserialization_error());
                },
            };
            let r = match self.backend.get(sender, GetArgs { key }) {
                Ok(r) => r,
                Err(e) => {
                    return Err(e);
                },
            };
            Ok(CallResult::Bytes(r.to_bytes()))
        } else {
            Err(ManyError::invalid_method_name())
        }
    }
}

/// The dotted name of the info endpoint, `kvstore.info`.
pub open spec fn kvstore_info_name() -> Seq<u8> {
    seq![107u8, 118u8, 115u8, 116u8, 111u8, 114u8, 101u8, 46u8, 105u8, 110u8, 102u8, 111u8]
}

/// The dotted name of the get endpoint, `kvstore.get`.
pub open spec fn kvstore_get_name() -> Seq<u8> {
    seq![107u8, 118u8, 115u8, 116u8, 111u8, 114u8, 101u8, 46u8, 103u8, 101u8, 116u8]
}

fn kvstore_ns_vec() -> (r: Vec<u8>)
    ensures
        r@ == seq![107u8, 118u8, 115u8, 116u8, 111u8, 114u8, 101u8],
{
    let mut v: Vec<u8> = Vec::new();
    v.push(107);
    v.push(118);
    v.push(115);
    v.push(116);
    v.push(111);
    v.push(114);
    v.push(101);
    proof {
        assert(v@ =~= seq![107u8, 118u8, 115u8, 116u8, 111u8, 114u8, 101u8]);
    }
    v
}

/// Builds the key/value-store module over a backend: namespace
/// `kvstore`, endpoints `kvstore.info` (null argument, no policy flags)
/// and `kvstore.get` (a `{0: key}` map, no policy flags), advertised
/// under the module's attribute.
pub fn kv_store_module<T: KvStoreModuleBackend>(backend: T) -> (r: ManyModule<KvStoreModule<T>>)
    ensures
        r.info.endpoints@.len() == 2,
        r.info.endpoints@[0]@ == (EndpointDeclV {
            name: kvstore_info_name(),
            deny_anonymous: false,
            check_webauthn: false,
            arg: ArgShape::Null,
        }),
        r.info.endpoints@[1]@ == (EndpointDeclV {
            name: kvstore_get_name(),
            deny_anonymous: false,
            check_webauthn: false,
            arg: ArgShape::KeyMap,
        }),
        r.info.attribute matches Some(a) && a@ == (AttributeV {
            id: KVSTORE_ATTRIBUTE_ID,
            argument: None,
        }),
        r.backend.backend == backend,
{
    let ns = kvstore_ns_vec();
    let mut endpoints: Vec<EndpointDecl> = Vec::new();
    let flags = EndpointManyAttribute::none();
    let mut m_info: Vec<u8> = Vec::new();
    m_info.push(105);
    m_info.push(110);
    m_info.push(102);
    m_info.push(111);
    proof {
        assert(m_info@ =~= seq![105u8, 110u8, 102u8, 111u8]);
        lemma_camel_plain(m_info@);
        assert(endpoint_name(Some(ns@), m_info@) =~= kvstore_info_name());
    }
    endpoints.push(EndpointDecl::new(Some(&ns), &m_info, &flags, ArgShape::Null));
    let mut m_get: Vec<u8> = Vec::new();
    m_get.push(103);
    m_get.push(101);
    m_get.push(116);
    proof {
        assert(m_get@ =~= seq![103u8, 101u8, 116u8]);
        lemma_camel_plain(m_get@);
        assert(endpoint_name(Some(ns@), m_get@) =~= kvstore_get_name());
    }
    endpoints.push(EndpointDecl::new(Some(&ns), &m_get, &flags, ArgShape::KeyMap));
    ManyModule {
        info: ManyModuleInfo {
            name: "KvStoreModule".as_bytes_vec(),
            attribute: Some(crate::message::Attribute::id(KVSTORE_ATTRIBUTE_ID)),
            endpoints,
        },
        backend: KvStoreModule { backend },
    }
}

} // verus!
