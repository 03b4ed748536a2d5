//! The server: its identity and signer, the built-in base module
//! (status, echo, endpoints), the optional async module and one
//! registered application module. Dispatch enforces the per-endpoint
//! policies before any backend runs.

use vstd::prelude::*;
use vstd::multiset::Multiset;

use crate::asyncmod::{write_async_status, AsyncManager, ASYNC_ATTRIBUTE_ID};
use crate::cbor::{enc_array_head, enc_bytes, enc_map_head, enc_text, enc_uint, write_array_head,
    write_bytes, write_map_head, write_text, write_uint};
use crate::cose::{decode_request_from_cose_sign1, encode_cose_sign1_from_response,
    signed_envelope, CoseKeyIdentity};
use crate::error::ManyError;
use crate::identity::{bytes_eq, Identity};
use crate::message::{enc_response, Attribute, RequestMessage, ResponseMessage, ResponseV};
use crate::module::{call_result_view, decls_view, validate_spec, CallResult, ManyModule,
    ModuleBackend};

verus! {

/// The attribute id of the built-in base module.
pub const BASE_ATTRIBUTE_ID: u32 = 0;

pub open spec fn status_name() -> Seq<u8> {
    seq![115u8, 116u8, 97u8, 116u8, 117u8, 115u8]
}

pub open spec fn echo_name() -> Seq<u8> {
    seq![101u8, 99u8, 104u8, 111u8]
}

pub open spec fn endpoints_name() -> Seq<u8> {
    seq![101u8, 110u8, 100u8, 112u8, 111u8, 105u8, 110u8, 116u8, 115u8]
}

pub open spec fn async_status_name() -> Seq<u8> {
    seq![97u8, 115u8, 121u8, 110u8, 99u8, 46u8, 115u8, 116u8, 97u8, 116u8, 117u8, 115u8]
}

/// The built-in method names a request can address besides the
/// registered module.
pub open spec fn is_builtin(method: Seq<u8>) -> bool {
    method == status_name() || method == echo_name() || method == endpoints_name() || method
        == async_status_name()
}

fn status_name_vec() -> (r: Vec<u8>)
    ensures
        r@ == status_name(),
{
    let mut v: Vec<u8> = Vec::new();
    v.push(115);
    v.push(116);
    v.push(97);
    v.push(116);
    v.push(117);
    v.push(115);
    proof {
        assert(v@ =~= status_name());
    }
    v
}

fn echo_name_vec() -> (r: Vec<u8>)
    ensures
        r@ == echo_name(),
{
    let mut v: Vec<u8> = Vec::new();
    v.push(101);
    v.push(99);
    v.push(104);
    v.push(111);
    proof {
        assert(v@ =~= echo_name());
    }
    v
}

fn endpoints_name_vec() -> (r: Vec<u8>)
    ensures
        r@ == endpoints_name(),
{
    let mut v: Vec<u8> = Vec::new();
    v.push(101);
    v.push(110);
    v.push(100);
    v.push(112);
    v.push(111);
    v.push(105);
    v.push(110);
    v.push(116);
    v.push(115);
    proof {
        assert(v@ =~= endpoints_name());
    }
    v
}

fn async_status_name_vec() -> (r: Vec<u8>)
    ensures
        r@ == async_status_name(),
{
    let mut v: Vec<u8> = Vec::new();
    v.push(97);
    v.push(115);
    v.push(121);
    v.push(110);
    v.push(99);
    v.push(46);
    v.push(115);
    v.push(116);
    v.push(97);
    v.push(116);
    v.push(117);
    v.push(115);
    proof {
        assert(v@ =~= async_status_name());
    }
    v
}

// ------------------------------------------------------------------
// The status answer.
// ------------------------------------------------------------------

/// What `status` reports about a server.
#[derive(Debug)]
pub struct Status {
    pub name: Vec<u8>,
    pub public_key: Vec<u8>,
    pub identity: Identity,
    pub attributes: Vec<u32>,
    pub server_version: Vec<u8>,
    pub protocol_version: u64,
}

/// Encoding of a list of attribute ids.
pub open spec fn enc_u32s(v: Seq<u32>) -> Seq<u8>
    decreases v.len(),
{
    if v.len() == 0 {
        Seq::empty()
    } else {
        enc_uint(v[0] as u64) + enc_u32s(v.skip(1))
    }
}

proof fn lemma_enc_u32s_push(v: Seq<u32>, x: u32)
    ensures
        enc_u32s(v.push(x)) == enc_u32s(v) + enc_uint(x as u64),
    decreases v.len(),
{
    if v.len() == 0 {
        assert(v.push(x)[0] == x);
        assert(v.push(x).skip(1) =~= Seq::<u32>::empty());
        assert(enc_u32s(Seq::<u32>::empty()) =~= Seq::<u8>::empty());
        assert(enc_u32s(v.push(x)) =~= enc_uint(x as u64) + Seq::<u8>::empty());
        assert(enc_u32s(v.push(x)) =~= enc_u32s(v) + enc_uint(x as u64));
    } else {
        assert(v.push(x)[0] == v[0]);
        assert(v.push(x).skip(1) =~= v.skip(1).push(x));
        lemma_enc_u32s_push(v.skip(1), x);
        assert(enc_uint(v[0] as u64) + (enc_u32s(v.skip(1)) + enc_uint(x as u64)) =~= (enc_uint(
            v[0] as u64,
        ) + enc_u32s(v.skip(1))) + enc_uint(x as u64));
    }
}

/// Mathematical model of a status answer.
pub struct StatusV {
    pub name: Seq<u8>,
    pub public_key: Seq<u8>,
    pub identity: crate::identity::IdentityV,
    pub attributes: Seq<u32>,
    pub server_version: Seq<u8>,
    pub protocol_version: u64,
}

impl View for Status {
    type V = StatusV;

    open spec fn view(&self) -> StatusV {
        StatusV {
            name: self.name@,
            public_key: self.public_key@,
            identity: self.identity@,
            attributes: self.attributes@,
            server_version: self.server_version@,
            protocol_version: self.protocol_version,
        }
    }
}

/// Canonical encoding of a status answer: a map
/// `{0: name, 1: public key, 2: identity, 3: attributes, 4: server
/// version, 5: protocol version}`.
pub open spec fn enc_status(st: StatusV) -> Seq<u8> {
    enc_map_head(6) + enc_uint(0) + enc_text(st.name) + enc_uint(1) + enc_bytes(st.public_key)
        + enc_uint(2) + enc_bytes(st.identity.bytes()) + enc_uint(3) + enc_array_head(
        st.attributes.len() as u64,
    ) + enc_u32s(st.attributes) + enc_uint(4) + enc_text(st.server_version) + enc_uint(5)
        + enc_uint(st.protocol_version)
}

impl Status {
    /// The canonical encoding of this status answer.
    pub fn to_bytes(&self) -> (r: Vec<u8>)
        requires
            self@.identity.wf(),
        ensures
            r@ == enc_status(self@),
    {
        let mut out: Vec<u8> = Vec::new();
        write_map_head(&mut out, 6);
        write_uint(&mut out, 0);
        write_text(&mut out, &self.name);
        write_uint(&mut out, 1);
        write_bytes(&mut out, &self.public_key);
        write_uint(&mut out, 2);
        let idb = self.identity.to_vec();
        write_bytes(&mut out, &idb);
        write_uint(&mut out, 3);
        write_array_head(&mut out, self.attributes.len() as u64);
        let ghost pre = out@;
        let ghost av = self.attributes@;
        let mut i: usize = 0;
        while i < self.attributes.len()
            invariant
                i <= self.attributes.len(),
                av == self.attributes@,
                out@ == pre + enc_u32s(av.take(i as int)),
            decreases self.attributes.len() - i,
        {
            write_uint(&mut out, self.attributes[i] as u64);
            proof {
                assert(av.take(i + 1) =~= av.take(i as int).push(av[i as int]));
                lemma_enc_u32s_push(av.take(i as int), av[i as int]);
            }
            i = i + 1;
        }
        proof {
            assert(av.take(av.len() as int) =~= av);
        }
        write_uint(&mut out, 4);
        write_text(&mut out, &self.server_version);
        write_uint(&mut out, 5);
        write_uint(&mut out, self.protocol_version);
        proof {
            assert(out@ =~= enc_status(self@));
        }
        out
    }
}

// ------------------------------------------------------------------
// The server.
// ------------------------------------------------------------------

/// A backend for a server without a registered application module.
#[derive(Debug)]
pub struct NoBackend;

impl ModuleBackend for NoBackend {
    open spec fn call_ensures(
        pre: NoBackend,
        post: NoBackend,
        index: int,
        sender: crate::identity::IdentityV,
        data: Seq<u8>,
        r: Result<crate::module::CallResultV, crate::error::ErrorV>,
    ) -> bool {
        r matches Err(e) && e.code == crate::error::CODE_INTERNAL_SERVER_ERROR
    }


    fn call(&mut self, index: usize, sender: &Identity, data: &Vec<u8>) -> Result<
        CallResult,
        ManyError,
    > {
        Err(ManyError::internal_server_error())
    }
}

/// The server state: name, key, versions, the optional application
/// module, the async manager and the advertised attributes.
pub struct ManyServer<B: ModuleBackend> {
    pub name: Vec<u8>,
    pub key: CoseKeyIdentity,
    pub server_version: Vec<u8>,
    pub module: Option<ManyModule<B>>,
    pub async_enabled: bool,
    pub async_manager: AsyncManager,
    pub attributes: Vec<u32>,
}

impl<B: ModuleBackend> ManyServer<B> {
    pub open spec fn wf(self) -> bool {
        self.key@.wf()
    }

    /// The declarations of the registered module, or the empty list.
    pub open spec fn module_decls(self) -> Seq<crate::module::EndpointDeclV> {
        match self.module {
            Some(m) => decls_view(m.info.endpoints@),
            None => Seq::empty(),
        }
    }

    /// The attribute list a server advertises: the base module, the
    /// async module when enabled, and the registered module's attribute.
    pub open spec fn expected_attributes(
        module: Option<ManyModule<B>>,
        async_enabled: bool,
    ) -> Seq<u32> {
        seq![BASE_ATTRIBUTE_ID] + (if async_enabled {
            seq![ASYNC_ATTRIBUTE_ID]
        } else {
            Seq::<u32>::empty()
        }) + (match module {
            Some(m) => match m.info.attribute {
                Some(a) => seq![a.id],
                None => Seq::<u32>::empty(),
            },
            None => Seq::<u32>::empty(),
        })
    }

    /// Whether a module endpoint name collides with a built-in name.
    pub open spec fn builtin_clash(
        module: Option<ManyModule<B>>,
        async_enabled: bool,
    ) -> bool {
        match module {
            Some(m) => exists|i: int|
                0 <= i < m.info.endpoints@.len() && (#[trigger] m.info.endpoints@[i]@.name
                    == status_name() || m.info.endpoints@[i]@.name == echo_name()
                    || m.info.endpoints@[i]@.name == endpoints_name() || (async_enabled
                    && m.info.endpoints@[i]@.name == async_status_name())),
            None => false,
        }
    }

    /// Builds a server. Fails with a duplicate-endpoint error exactly
    /// when the registered module declares an endpoint whose name is a
    /// built-in name (or the async endpoint, when enabled).
    pub fn new(
        name: Vec<u8>,
        key: CoseKeyIdentity,
        server_version: Vec<u8>,
        module: Option<ManyModule<B>>,
        async_enabled: bool,
    ) -> (r: Result<ManyServer<B>, ManyError>)
        requires
            key@.wf(),
        ensures
            match r {
                Ok(s) => {
                    &&& !Self::builtin_clash(module, async_enabled)
                    &&& s.wf()
                    &&& s.name@ == name@
                    &&& s.key@ == key@
                    &&& s.server_version@ == server_version@
                    &&& s.module == module
                    &&& s.async_enabled == async_enabled
                    &&& s.async_manager.entries@.len() == 0
                    &&& s.attributes@ == Self::expected_attributes(module, async_enabled)
                },
                Err(e) => e.code == crate::error::CODE_DUPLICATE_ENDPOINT && Self::builtin_clash(
                    module,
                    async_enabled,
                ),
            },
    {
        let mut attributes: Vec<u32> = Vec::new();
        attributes.push(BASE_ATTRIBUTE_ID);
        if async_enabled {
            attributes.push(ASYNC_ATTRIBUTE_ID);
        }
        match &module {
            Some(m) => {
                let sn = status_name_vec();
                let en = echo_name_vec();
                let pn = endpoints_name_vec();
                let an = async_status_name_vec();
                let mut i: usize = 0;
                while i < m.info.endpoints.len()
                    invariant
                        i <= m.info.endpoints.len(),
                        sn@ == status_name(),
                        en@ == echo_name(),
                        pn@ == endpoints_name(),
                        an@ == async_status_name(),
                        module matches Some(mm) && mm == *m,
                        forall|j: int|
                            0 <= j < i ==> !(#[trigger] m.info.endpoints@[j]@.name
                                == status_name() || m.info.endpoints@[j]@.name == echo_name()
                                || m.info.endpoints@[j]@.name == endpoints_name() || (
                            async_enabled && m.info.endpoints@[j]@.name == async_status_name())),
                    decreases m.info.endpoints.len() - i,
                {
                    let nm = &m.info.endpoints[i].name;
                    proof {
                        assert(nm@ == m.info.endpoints@[i as int]@.name);
                    }
                    if bytes_eq(nm, &sn) || bytes_eq(nm, &en) || bytes_eq(nm, &pn) || (async_enabled
                        && bytes_eq(nm, &an)) {
                        proof {
                            assert((#[trigger] m.info.endpoints@[i as int]@.name == status_name()
                                || m.info.endpoints@[i as int]@.name == echo_name()
                                || m.info.endpoints@[i as int]@.name == endpoints_name() || (
                            async_enabled && m.info.endpoints@[i as int]@.name
                                == async_status_name())));
                            assert(Self::builtin_clash(module, async_enabled));
                        }
                        return Err(ManyError::duplicate_endpoint());
                    }
                    proof {
                        assert(!(m.info.endpoints@[i as int]@.name == status_name()
                            || m.info.endpoints@[i as int]@.name == echo_name()
                            || m.info.endpoints@[i as int]@.name == endpoints_name() || (
                        async_enabled && m.info.endpoints@[i as int]@.name
                            == async_status_name())));
                    }
                    i = i + 1;
                }
                match &m.info.attribute {
                    Some(a) => {
                        attributes.push(a.id);
                    },
                    None => {},
                }
            },
            None => {},
        }
        proof {
            assert(attributes@ =~= Self::expected_attributes(module, async_enabled));
        }
        Ok(
            ManyServer {
                name,
                key,
                server_version,
                module,
                async_enabled,
                async_manager: AsyncManager::new(),
                attributes,
            },
        )
    }

    /// The status answer: name, key, identity, attributes and versions.
    /// The status answer this server gives, as a value.
    pub open spec fn status_view(self) -> StatusV {
        StatusV {
            name: self.name@,
            public_key: match self.key@.cose_key {
                Some(ck) => ck,
                None => Seq::empty(),
            },
            identity: self.key@.identity,
            attributes: self.attributes@,
            server_version: self.server_version@,
            protocol_version: 1,
        }
    }

    /// The status answer: name, key, identity, attributes and versions.
    pub fn status(&self) -> (r: Status)
        requires
            self.wf(),
        ensures
            r@ == self.status_view(),
    {
        Status {
            name: crate::error::copy_bytes(&self.name),
            public_key: match &self.key.cose_key {
                Some(ck) => crate::error::copy_bytes(ck),
                None => Vec::new(),
            },
            identity: self.key.identity.dup(),
            attributes: copy_u32s(&self.attributes),
            server_version: crate::error::copy_bytes(&self.server_version),
            protocol_version: 1,
        }
    }

    /// The endpoint names a server serves, before sorting: the
    /// built-ins, then the registered module's declarations in order.
    pub open spec fn all_endpoint_names(self) -> Seq<Seq<u8>> {
        seq![echo_name(), endpoints_name(), status_name()] + (if self.async_enabled {
            seq![async_status_name()]
        } else {
            Seq::<Seq<u8>>::empty()
        }) + (match self.module {
            Some(m) => Seq::new(m.info.endpoints@.len(), |i: int| m.info.endpoints@[i]@.name),
            None => Seq::<Seq<u8>>::empty(),
        })
    }

    /// The names of every endpoint the server serves, built-ins first,
    /// then the registered module's, sorted lexicographically.
    pub fn endpoints(&self) -> (r: Vec<Vec<u8>>)
        ensures
            sorted_names(names_view(r@)),
            names_view(r@).to_multiset() == self.all_endpoint_names().to_multiset(),
    {
        let mut names: Vec<Vec<u8>> = Vec::new();
        names.push(echo_name_vec());
        names.push(endpoints_name_vec());
        names.push(status_name_vec());
        if self.async_enabled {
            names.push(async_status_name_vec());
        }
        let ghost base = names_view(names@);
        proof {
            assert(base =~= seq![echo_name(), endpoints_name(), status_name()] + (
            if self.async_enabled {
                seq![async_status_name()]
            } else {
                Seq::<Seq<u8>>::empty()
            }));
        }
        match &self.module {
            Some(m) => {
                let ghost eps = Seq::new(
                    m.info.endpoints@.len(),
                    |i: int| m.info.endpoints@[i]@.name,
                );
                let mut i: usize = 0;
                while i < m.info.endpoints.len()
                    invariant
                        i <= m.info.endpoints.len(),
                        eps == Seq::new(
                            m.info.endpoints@.len(),
                            |k: int| m.info.endpoints@[k]@.name,
                        ),
                        names_view(names@) == base + eps.take(i as int),
                    decreases m.info.endpoints.len() - i,
                {
                    let ghost prev = names_view(names@);
                    names.push(crate::error::copy_bytes(&m.info.endpoints[i].name));
                    proof {
                        assert(names_view(names@) =~= prev.push(
                            m.info.endpoints@[i as int]@.name,
                        ));
                        assert(eps.take(i + 1) =~= eps.take(i as int).push(eps[i as int]));
                        assert(eps[i as int] == m.info.endpoints@[i as int]@.name);
                        assert(names_view(names@) =~= base + eps.take(i + 1));
                    }
                    i = i + 1;
                }
                proof {
                    assert(eps.take(eps.len() as int) =~= eps);
                    assert(names_view(names@) =~= self.all_endpoint_names());
                }
            },
            None => {
                proof {
                    assert(names_view(names@) =~= self.all_endpoint_names());
                }
            },
        }
        sort_names(names)
    }

    /// The eventual response recorded for a deferred backend result:
    /// the payload the backend promised, addressed back to the sender.
    pub open spec fn async_eventual(
        from: crate::identity::IdentityV,
        m: crate::message::RequestV,
        payload: Seq<u8>,
        now: u64,
    ) -> ResponseV {
        ResponseV {
            version: 1,
            from,
            to: Some(m.from),
            data: Ok(payload),
            timestamp: now,
            id: m.id,
            attributes: Seq::empty(),
        }
    }

    /// Handles one decoded request: dispatches to a built-in endpoint or
    /// to the registered module, enforcing validation first. The
    /// response echoes the request id, answers to the sender, and is
    /// timestamped `now`. Policy rejections and unknown methods never
    /// reach the backend; an admitted request reaches it under the
    /// matched index with the message's sender and data, and the
    /// response carries the backend's result: its payload directly, or
    /// an empty payload with a registered async token.
    pub fn handle_message(&mut self, msg: &RequestMessage, webauthn: bool, now: u64) -> (r:
        ResponseMessage)
        requires
            old(self).wf(),
            msg@.from.wf(),
        ensures
            final(self).wf(),
            final(self).key == old(self).key,
            r@.wf(),
            r@.version == 1,
            r@.from == old(self).key@.identity,
            r@.to == Some(msg@.from),
            r@.id == msg@.id,
            r@.timestamp == now,
            r@.from.wf(),
            msg@.method == echo_name() ==> r@.data == Ok::<Seq<u8>, crate::error::ErrorV>(msg@.data) && final(self).module == old(self).module,
            msg@.method == status_name() ==> r@.data == Ok::<Seq<u8>, crate::error::ErrorV>(
                enc_status(old(self).status_view()),
            ) && final(self).module == old(self).module,
            msg@.method == endpoints_name() ==> (exists|ns: Seq<Seq<u8>>|
                #![auto]
                sorted_names(ns) && ns.to_multiset() == old(self).all_endpoint_names().to_multiset()
                    && r@.data == Ok::<Seq<u8>, crate::error::ErrorV>(enc_name_list(ns))),
            msg@.method == async_status_name() ==> (if old(self).async_enabled {
                match crate::module::parse_arg_map(msg@.data) {
                    Some(token) => {
                        let ans = crate::asyncmod::async_answer(
                            old(self).async_manager.entries@,
                            token,
                            now,
                        );
                        r@.data == Ok::<Seq<u8>, crate::error::ErrorV>(
                            crate::asyncmod::enc_async_status(ans.0, ans.1),
                        )
                    },
                    None => r@.data matches Err(e) && e.code
                        == crate::error::CODE_DESERIALIZATION_ERROR,
                }
            } else {
                r@.data matches Err(e) && e.code == crate::error::CODE_UNKNOWN_METHOD
            }),
            !is_builtin(msg@.method) && old(self).module is None ==> (
            r@.data matches Err(e) && e.code == crate::error::CODE_UNKNOWN_METHOD),
            !is_builtin(msg@.method) && old(self).module is Some ==> (match validate_spec(
                old(self).module_decls(),
                msg@.method,
                msg@.from is Anonymous,
                msg@.data,
                webauthn,
            ) {
                Some(code) => (r@.data matches Err(e) && e.code == code) && final(self).module->Some_0.backend == old(self).module->Some_0.backend,
                None => (exists|cr: Result<crate::module::CallResultV, crate::error::ErrorV>|
                    #![auto]
                    B::call_ensures(
                        old(self).module->Some_0.backend,
                        final(self).module->Some_0.backend,
                        crate::module::find_endpoint_index(
                            old(self).module_decls(),
                            msg@.method,
                        )->Some_0,
                        msg@.from,
                        msg@.data,
                        cr,
                    ) && (match cr {
                        Err(e) => r@.data == Err::<Seq<u8>, crate::error::ErrorV>(e)
                            && r@.attributes.len() == 0,
                        Ok(crate::module::CallResultV::Bytes(d)) => r@.data == Ok::<
                            Seq<u8>,
                            crate::error::ErrorV,
                        >(d) && r@.attributes.len() == 0 && final(self).async_manager == old(self).async_manager,
                        Ok(crate::module::CallResultV::Async(ev)) => {
                            &&& r@.data == Ok::<Seq<u8>, crate::error::ErrorV>(Seq::empty())
                            &&& (exists|t: Seq<u8>|
                                #![auto]
                                t.len() == 16 && r@.attributes == seq![
                                    crate::message::AttributeV {
                                        id: ASYNC_ATTRIBUTE_ID,
                                        argument: Some(t),
                                    },
                                ] && final(self).async_manager.entries@.len() == old(self).async_manager.entries@.len() + 1 && final(self).async_manager.entries@[old(self).async_manager.entries@.len() as int].token@
                                    == t && (final(self).async_manager.entries@[old(self).async_manager.entries@.len() as int].state matches crate::asyncmod::AsyncState::Pending {
                                    response: rr,
                                    deadline,
                                } && rr@ == crate::message::enc_response(
                                    Self::async_eventual(
                                        old(self).key@.identity,
                                        msg@,
                                        ev,
                                        now,
                                    ),
                                )))
                        },
                    })),
            }),
    {
        let sn = status_name_vec();
        let en = echo_name_vec();
        let pn = endpoints_name_vec();
        let an = async_status_name_vec();
        let data: Result<Vec<u8>, ManyError>;
        let mut attrs: Vec<Attribute> = Vec::new();
        if bytes_eq(&msg.method, &sn) {
            let st = self.status();
            data = Ok(st.to_bytes());
        } else if bytes_eq(&msg.method, &en) {
            data = Ok(crate::error::copy_bytes(&msg.data));
        } else if bytes_eq(&msg.method, &pn) {
            let names = self.endpoints();
            proof {
                assert(sorted_names(names_view(names@)));
                assert(names_view(names@).to_multiset()
                    == old(self).all_endpoint_names().to_multiset());
            }
            data = Ok(encode_name_list(&names));
        } else if bytes_eq(&msg.method, &an) {
            if self.async_enabled {
                match crate::module::read_arg_map(&msg.data) {
                    Some(token) => {
                        let st = self.async_manager.status(&token, now);
                        proof {
                            let ans = crate::asyncmod::async_answer(
                                old(self).async_manager.entries@,
                                token@,
                                now,
                            );
                            match &st {
                                crate::asyncmod::AsyncStatus::Unknown => {
                                    assert(ans == (0u64, None::<Seq<u8>>));
                                },
                                crate::asyncmod::AsyncStatus::Queued => {
                                    assert(false);
                                },
                                crate::asyncmod::AsyncStatus::Done { response } => {},
                                crate::asyncmod::AsyncStatus::Expired => {
                                    assert(ans == (4u64, None::<Seq<u8>>));
                                },
                            }
                        }
                        data = Ok(write_async_status(&st));
                    },
                    None => {
                        data = Err(ManyError::deserialization_error());
                    },
                }
            } else {
                data = Err(ManyError::invalid_method_name());
            }
        } else {
            match &mut self.module {
                Some(m) => {
                    match m.validate(msg, webauthn) {
                        Err(e) => {
                            data = Err(e);
                        },
                        Ok(()) => {
                            match m.execute(msg) {
                                Err(e) => {
                                    data = Err(e);
                                },
                                Ok(CallResult::Bytes(d)) => {
                                    data = Ok(d);
                                },
                                Ok(CallResult::Async(eventual)) => {
                                    // Allocate a token, record the
                                    // deferred result, and answer with an
                                    // empty payload carrying the token.
                                    let ghost ev = eventual@;
                                    let token = crate::crypto::random_token();
                                    let eventual_resp = ResponseMessage {
                                        version: 1,
                                        from: self.key.identity.dup(),
                                        to: Some(msg.from.dup()),
                                        data: Ok(eventual),
                                        timestamp: now,
                                        id: msg.id,
                                        attributes: Vec::new(),
                                    };
                                    proof {
                                        crate::cose::lemma_key_identity_wf(self.key@);
                                        assert(eventual_resp@.attributes =~= Seq::<crate::message::AttributeV>::empty());
                                        assert(eventual_resp@.wf());
                                        assert(eventual_resp@ == Self::async_eventual(
                                            old(self).key@.identity,
                                            msg@,
                                            ev,
                                            now,
                                        ));
                                    }
                                    let eb = eventual_resp.to_bytes();
                                    self.async_manager.register(
                                        crate::error::copy_bytes(&token),
                                        eb,
                                        now,
                                    );
                                    attrs.push(
                                        Attribute::with_argument(ASYNC_ATTRIBUTE_ID, token),
                                    );
                                    proof {
                                        assert(attrs@.len() == 1);
                                        assert(attrs@[0]@ == (crate::message::AttributeV {
                                            id: ASYNC_ATTRIBUTE_ID,
                                            argument: Some(token@),
                                        }));
                                    }
                                    data = Ok(Vec::new());
                                },
                            }
                        },
                    }
                },
                None => {
                    data = Err(ManyError::invalid_method_name());
                },
            }
        }
        let r = ResponseMessage {
            version: 1,
            from: self.key.identity.dup(),
            to: Some(msg.from.dup()),
            data,
            timestamp: now,
            id: msg.id,
            attributes: attrs,
        };
        proof {
            crate::cose::lemma_key_identity_wf(self.key@);
            assert forall|i: int| 0 <= i < r@.attributes.len() implies #[trigger] r@.attributes[i].wf() by {
                assert(r@.attributes[i] == r.attributes@[i]@);
            }
            assert(r@.wf());
        }
        r
    }

    /// Handles one request envelope: decodes and verifies it, dispatches
    /// the message, and signs the response. An envelope that does not
    /// decode is answered with its decode error, addressed to nobody; a
    /// decoded request is answered as `handle_message` answers it.
    pub fn handle(&mut self, envelope: &Vec<u8>, now: u64) -> (r: Vec<u8>)
        requires
            old(self).wf(),
        ensures
            final(self).wf(),
            final(self).key == old(self).key,
            match crate::cose::decode_request_spec(envelope@) {
                None => exists|rv: ResponseV|
                    #![auto]
                    rv.version == 1 && rv.from == old(self).key@.identity && rv.to is None
                        && rv.id is None && rv.timestamp == now && (rv.data matches Err(e)
                        && e.code < 0) && rv.wf() && r@ == signed_envelope(
                        old(self).key@,
                        enc_response(rv),
                        false,
                    ),
                Some((mv, wa)) => exists|rv: ResponseV|
                    #![auto]
                    rv.version == 1 && rv.from == old(self).key@.identity && rv.to == Some(mv.from)
                        && rv.id == mv.id && rv.timestamp == now && rv.wf() && (mv.method
                        == echo_name() ==> rv.data == Ok::<Seq<u8>, crate::error::ErrorV>(
                        mv.data,
                    )) && (mv.method == status_name() ==> rv.data == Ok::<
                        Seq<u8>,
                        crate::error::ErrorV,
                    >(enc_status(old(self).status_view()))) && (!is_builtin(mv.method) && old(self).module is None ==> (rv.data matches Err(e) && e.code
                        == crate::error::CODE_UNKNOWN_METHOD)) && (!is_builtin(mv.method) && old(self).module is Some ==> (match validate_spec(
                        old(self).module_decls(),
                        mv.method,
                        mv.from is Anonymous,
                        mv.data,
                        wa,
                    ) {
                        Some(code) => (rv.data matches Err(e) && e.code == code) && final(self).module->Some_0.backend == old(self).module->Some_0.backend,
                        None => true,
                    })) && r@ == signed_envelope(old(self).key@, enc_response(rv), false),
            },
    {
        let resp: ResponseMessage = match decode_request_from_cose_sign1(envelope) {
            Ok((msg, webauthn)) => self.handle_message(&msg, webauthn, now),
            Err(e) => ResponseMessage {
                version: 1,
                from: self.key.identity.dup(),
                to: None,
                data: Err(e),
                timestamp: now,
                id: None,
                attributes: Vec::new(),
            },
        };
        proof {
            crate::cose::lemma_key_identity_wf(self.key@);
            assert(resp@.attributes.len() == resp.attributes@.len());
            assert(resp@.wf());
        }
        let env = match encode_cose_sign1_from_response(&resp, &self.key) {
            Ok(env) => env,
            Err(_) => Vec::new(),
        };
        proof {
            assert(env@ == signed_envelope(old(self).key@, enc_response(resp@), false));
        }
        env
    }
}

/// Builds a server with the base module only: the simplest server that
/// answers status, echo and endpoints.
pub fn simple_server(name: Vec<u8>, key: CoseKeyIdentity, server_version: Vec<u8>) -> (r:
    ManyServer<NoBackend>)
    requires
        key@.wf(),
    ensures
        r.wf(),
        r.key@ == key@,
        r.module is None,
        !r.async_enabled,
        r.attributes@ == seq![BASE_ATTRIBUTE_ID],
{
    let mut attributes: Vec<u32> = Vec::new();
    attributes.push(BASE_ATTRIBUTE_ID);
    proof {
        assert(attributes@ =~= seq![BASE_ATTRIBUTE_ID]);
    }
    ManyServer {
        name,
        key,
        server_version,
        module: None,
        async_enabled: false,
        async_manager: AsyncManager::new(),
        attributes,
    }
}

fn copy_u32s(v: &Vec<u32>) -> (r: Vec<u32>)
    ensures
        r@ == v@,
{
    let mut out: Vec<u32> = Vec::new();
    let mut i: usize = 0;
    while i < v.len()
        invariant
            i <= v.len(),
            out@ == v@.subrange(0, i as int),
        decreases v.len() - i,
    {
        out.push(v[i]);
        i = i + 1;
        proof {
            assert(out@ =~= v@.subrange(0, i as int));
        }
    }
    proof {
        assert(out@ =~= v@);
    }
    out
}

/// Lexicographic order on byte strings.
pub open spec fn lex_leq(a: Seq<u8>, b: Seq<u8>) -> bool
    decreases a.len(),
{
    if a.len() == 0 {
        true
    } else if b.len() == 0 {
        false
    } else if a[0] < b[0] {
        true
    } else if a[0] > b[0] {
        false
    } else {
        lex_leq(a.skip(1), b.skip(1))
    }
}

/// The lexicographic order is total.
pub proof fn lemma_lex_total(a: Seq<u8>, b: Seq<u8>)
    ensures
        lex_leq(a, b) || lex_leq(b, a),
    decreases a.len(),
{
    if a.len() != 0 && b.len() != 0 && a[0] == b[0] {
        lemma_lex_total(a.skip(1), b.skip(1));
    }
}

/// Lexicographic comparison.
fn bytes_le(a: &Vec<u8>, b: &Vec<u8>) -> (r: bool)
    ensures
        r == lex_leq(a@, b@),
{
    let n: usize = if a.len() < b.len() {
        a.len()
    } else {
        b.len()
    };
    let mut i: usize = 0;
    proof {
        assert(a@.skip(0) =~= a@);
        assert(b@.skip(0) =~= b@);
    }
    while i < n
        invariant
            i <= n,
            n <= a.len(),
            n <= b.len(),
            n == (if a.len() < b.len() {
                a.len()
            } else {
                b.len()
            }),
            lex_leq(a@, b@) == lex_leq(a@.skip(i as int), b@.skip(i as int)),
        decreases n - i,
    {
        proof {
            assert(a@.skip(i as int)[0] == a@[i as int]);
            assert(b@.skip(i as int)[0] == b@[i as int]);
            assert(a@.skip(i as int).skip(1) =~= a@.skip(i + 1));
            assert(b@.skip(i as int).skip(1) =~= b@.skip(i + 1));
        }
        if a[i] < b[i] {
            return true;
        }
        if a[i] > b[i] {
            return false;
        }
        i = i + 1;
    }
    proof {
        if a.len() <= b.len() {
            assert(a@.skip(i as int).len() == 0);
        } else {
            assert(b@.skip(i as int).len() == 0);
            assert(a@.skip(i as int).len() > 0);
        }
    }
    a.len() <= b.len()
}

/// The view of a list of names.
pub open spec fn names_view(v: Seq<Vec<u8>>) -> Seq<Seq<u8>> {
    Seq::new(v.len(), |i: int| v[i]@)
}

/// Adjacent pairs are in lexicographic order.
pub open spec fn sorted_names(names: Seq<Seq<u8>>) -> bool {
    forall|i: int| 0 <= i < names.len() - 1 ==> lex_leq(#[trigger] names[i], names[i + 1])
}

/// Sorts endpoint names lexicographically (insertion sort): the result
/// is sorted and holds exactly the given names.
fn sort_names(names: Vec<Vec<u8>>) -> (r: Vec<Vec<u8>>)
    ensures
        sorted_names(names_view(r@)),
        names_view(r@).to_multiset() == names_view(names@).to_multiset(),
{
    broadcast use vstd::seq_lib::group_to_multiset_ensures;

    let ghost total = names_view(names@);
    let mut out: Vec<Vec<u8>> = Vec::new();
    let mut rest = names;
    proof {
        assert(names_view(out@) =~= Seq::<Seq<u8>>::empty());
        assert(names_view(out@).to_multiset().add(names_view(rest@).to_multiset())
            =~= total.to_multiset());
    }
    while rest.len() > 0
        invariant
            sorted_names(names_view(out@)),
            names_view(out@).to_multiset().add(names_view(rest@).to_multiset())
                == total.to_multiset(),
        decreases rest@.len(),
    {
        broadcast use vstd::seq_lib::group_to_multiset_ensures;

        let ghost rest0 = names_view(rest@);
        let x = rest.remove(0);
        proof {
            assert(names_view(rest@) =~= rest0.skip(1));
            assert(rest0.remove(0) =~= rest0.skip(1));
            assert(rest0[0] == x@);
            vstd::seq_lib::to_multiset_remove(rest0, 0);
        }
        let ghost out0 = names_view(out@);
        let mut j: usize = 0;
        while j < out.len() && bytes_le(&out[j], &x)
            invariant
                j <= out.len(),
                out0 == names_view(out@),
                forall|k: int| 0 <= k < j ==> lex_leq(#[trigger] out0[k], x@),
            decreases out.len() - j,
        {
            j = j + 1;
        }
        proof {
            if j < out.len() {
                lemma_lex_total(out0[j as int], x@);
                assert(lex_leq(x@, out0[j as int]));
            }
        }
        out.insert(j, x);
        proof {
            assert(names_view(out@) =~= out0.insert(j as int, x@));
            vstd::seq_lib::to_multiset_insert(out0, j as int, x@);
            assert forall|i: int|
                0 <= i < names_view(out@).len() - 1 implies lex_leq(
                #[trigger] names_view(out@)[i],
                names_view(out@)[i + 1],
            ) by {
                let cur = names_view(out@);
                if i + 1 < j {
                    assert(cur[i] == out0[i] && cur[i + 1] == out0[i + 1]);
                } else if i + 1 == j {
                    assert(cur[i] == out0[i] && cur[i + 1] == x@);
                } else if i == j {
                    assert(cur[i] == x@ && cur[i + 1] == out0[i]);
                } else {
                    assert(cur[i] == out0[i - 1] && cur[i + 1] == out0[i]);
                }
            }
        }
    }
    proof {
        assert(names_view(rest@) =~= Seq::<Seq<u8>>::empty());
        assert(names_view(out@).to_multiset().add(Multiset::<Seq<u8>>::empty())
            =~= names_view(out@).to_multiset());
    }
    out
}

/// Encoding of the endpoint names, one text item after another.
pub open spec fn enc_texts(names: Seq<Seq<u8>>) -> Seq<u8>
    decreases names.len(),
{
    if names.len() == 0 {
        Seq::empty()
    } else {
        enc_text(names[0]) + enc_texts(names.skip(1))
    }
}

proof fn lemma_enc_texts_push(names: Seq<Seq<u8>>, x: Seq<u8>)
    ensures
        enc_texts(names.push(x)) == enc_texts(names) + enc_text(x),
    decreases names.len(),
{
    if names.len() == 0 {
        assert(names.push(x)[0] == x);
        assert(names.push(x).skip(1) =~= Seq::<Seq<u8>>::empty());
        assert(enc_texts(Seq::<Seq<u8>>::empty()) =~= Seq::<u8>::empty());
        assert(enc_texts(names.push(x)) =~= enc_text(x) + Seq::<u8>::empty());
        assert(enc_texts(names.push(x)) =~= enc_texts(names) + enc_text(x));
    } else {
        assert(names.push(x)[0] == names[0]);
        assert(names.push(x).skip(1) =~= names.skip(1).push(x));
        lemma_enc_texts_push(names.skip(1), x);
        assert(enc_text(names[0]) + (enc_texts(names.skip(1)) + enc_text(x)) =~= (enc_text(
            names[0],
        ) + enc_texts(names.skip(1))) + enc_text(x));
    }
}

/// Encoding of the endpoints answer: an array of text items.
pub open spec fn enc_name_list(names: Seq<Seq<u8>>) -> Seq<u8>
    recommends
        names.len() < 18446744073709551616,
{
    enc_array_head(names.len() as u64) + enc_texts(names)
}

/// Encodes a list of endpoint names as a CBOR array of text strings.
fn encode_name_list(names: &Vec<Vec<u8>>) -> (r: Vec<u8>)
    ensures
        r@ == enc_name_list(names_view(names@)),
{
    let mut out: Vec<u8> = Vec::new();
    write_array_head(&mut out, names.len() as u64);
    let ghost pre = out@;
    let ghost nv = names_view(names@);
    let mut i: usize = 0;
    while i < names.len()
        invariant
            i <= names.len(),
            nv == names_view(names@),
            nv.len() == names@.len(),
            out@ == pre + enc_texts(nv.take(i as int)),
        decreases names.len() - i,
    {
        write_text(&mut out, &names[i]);
        proof {
            assert(nv.take(i + 1) =~= nv.take(i as int).push(nv[i as int]));
            lemma_enc_texts_push(nv.take(i as int), nv[i as int]);
            assert(nv[i as int] == names@[i as int]@);
        }
        i = i + 1;
    }
    proof {
        assert(nv.take(nv.len() as int) =~= nv);
    }
    out
}

} // verus!
