//! Module dispatch: an interface description per module (endpoint names,
//! policy flags, argument shape), a validate pass that enforces policy
//! without touching the backend, and an execute pass that calls the
//! backend method by index.

use vstd::prelude::*;
use vstd::string::StringSliceAdditionalSpecFns;

use crate::cbor::{enc_null, parse_bytes, parse_map_head, read_bytes, read_map_head, read_uint};
use crate::error::{ErrorV, ManyError};
use crate::identity::{bytes_eq, Identity};
use crate::message::{parse_key, Attribute, RequestMessage};

verus! {

/// The per-endpoint policy flags of the interface description.
#[derive(Debug, Clone, PartialEq, Eq)]
pub struct EndpointManyAttribute {
    pub deny_anonymous: Option<bool>,
    pub check_webauthn: Option<bool>,
}

impl EndpointManyAttribute {
    pub fn none() -> (r: EndpointManyAttribute)
        ensures
            r.deny_anonymous is None,
            r.check_webauthn is None,
    {
        EndpointManyAttribute { deny_anonymous: None, check_webauthn: None }
    }

    /// Whether requests from anonymous senders are denied.
    pub fn deny_anonymous(&self) -> (r: bool)
        ensures
            r == (self.deny_anonymous == Some(true)),
    {
        match self.deny_anonymous {
            Some(v) => v,
            None => false,
        }
    }

    /// Whether the envelope must carry the webauthn label.
    pub fn check_webauthn(&self) -> (r: bool)
        ensures
            r == (self.check_webauthn == Some(true)),
    {
        match self.check_webauthn {
            Some(v) => v,
            None => false,
        }
    }

    /// Merges two flag sets; a flag set on both sides is an error.
    pub fn merge(self, other: Self) -> (r: Result<Self, ManyError>)
        ensures
            match r {
                Ok(m) => {
                    &&& !(self.deny_anonymous is Some && other.deny_anonymous is Some)
                    &&& !(self.check_webauthn is Some && other.check_webauthn is Some)
                    &&& m.deny_anonymous == (if self.deny_anonymous is Some {
                        self.deny_anonymous
                    } else {
                        other.deny_anonymous
                    })
                    &&& m.check_webauthn == (if self.check_webauthn is Some {
                        self.check_webauthn
                    } else {
                        other.check_webauthn
                    })
                },
                Err(e) => (self.deny_anonymous is Some && other.deny_anonymous is Some) || (
                self.check_webauthn is Some && other.check_webauthn is Some),
            },
    {
        if self.deny_anonymous.is_some() && other.deny_anonymous.is_some() {
            return Err(ManyError::duplicate_endpoint());
        }
        if self.check_webauthn.is_some() && other.check_webauthn.is_some() {
            return Err(ManyError::duplicate_endpoint());
        }
        Ok(
            EndpointManyAttribute {
                deny_anonymous: if self.deny_anonymous.is_some() {
                    self.deny_anonymous
                } else {
                    other.deny_anonymous
                },
                check_webauthn: if self.check_webauthn.is_some() {
                    self.check_webauthn
                } else {
                    other.check_webauthn
                },
            },
        )
    }

    /// Recognises one flag name of the attribute syntax.
    pub fn parse_flag(name: &str) -> (r: Result<EndpointManyAttribute, ManyError>)
        ensures
            match r {
                Ok(m) => (name.spec_bytes() == "deny_anonymous".spec_bytes()
                    && m.deny_anonymous == Some(true) && m.check_webauthn is None) || (
                name.spec_bytes() == "check_webauthn".spec_bytes() && m.check_webauthn == Some(true)
                    && m.deny_anonymous is None),
                Err(e) => name.spec_bytes() != "deny_anonymous".spec_bytes() && name.spec_bytes()
                    != "check_webauthn".spec_bytes(),
            },
    {
        let b = name.as_bytes_vec();
        let da = "deny_anonymous".as_bytes_vec();
        let cw = "check_webauthn".as_bytes_vec();
        if bytes_eq(&b, &da) {
            Ok(EndpointManyAttribute { deny_anonymous: Some(true), check_webauthn: None })
        } else if bytes_eq(&b, &cw) {
            Ok(EndpointManyAttribute { deny_anonymous: None, check_webauthn: Some(true) })
        } else {
            Err(ManyError::invalid_method_name())
        }
    }
}

/// The argument shape an endpoint declares; validation decodes the
/// request data against it.
#[derive(Debug, Clone, Copy, PartialEq, Eq, Structural)]
pub enum ArgShape {
    /// Any bytes, including none.
    Raw,
    /// Exactly the CBOR null item.
    Null,
    /// A map `{0: bytes}`, such as an async token argument.
    KeyMap,
}

/// Parses a `{0: bytes}` argument map; the input must be consumed
/// exactly.
pub open spec fn parse_arg_map(s: Seq<u8>) -> Option<Seq<u8>> {
    match parse_map_head(s) {
        None => None,
        Some((c, p0)) => if c != 1 {
            None
        } else {
            match parse_key(s.skip(p0), 0) {
                None => None,
                Some(p1) => match parse_bytes(s.skip(p0 + p1)) {
                    None => None,
                    Some((v, p2)) => if p0 + p1 + p2 == s.len() {
                        Some(v)
                    } else {
                        None
                    },
                },
            }
        },
    }
}

/// Whether request data is valid for an argument shape.
pub open spec fn arg_ok(shape: ArgShape, data: Seq<u8>) -> bool {
    match shape {
        ArgShape::Raw => true,
        ArgShape::Null => data == enc_null(),
        ArgShape::KeyMap => parse_arg_map(data) is Some,
    }
}

/// Reads a `{0: bytes}` argument map.
pub fn read_arg_map(b: &Vec<u8>) -> (r: Option<Vec<u8>>)
    ensures
        match r {
            Some(v) => parse_arg_map(b@) == Some(v@),
            None => parse_arg_map(b@) is None,
        },
{
    proof {
        assert(b@.skip(0) =~= b@);
    }
    let (c, p0) = match read_map_head(b, 0) {
        Some(v) => v,
        None => {
            return None;
        },
    };
    if c != 1 {
        return None;
    }
    let (k, p1) = match read_uint(b, p0) {
        Some(v) => v,
        None => {
            return None;
        },
    };
    if k != 0 {
        return None;
    }
    proof {
        assert(b@.skip(p0 as int).skip((p1 - p0) as int) =~= b@.skip(p1 as int));
    }
    let (v, p2) = match read_bytes(b, p1) {
        Some(v) => v,
        None => {
            return None;
        },
    };
    if p2 != b.len() {
        return None;
    }
    Some(v)
}

/// Checks request data against an argument shape.
pub fn check_arg(shape: &ArgShape, data: &Vec<u8>) -> (r: bool)
    ensures
        r == arg_ok(*shape, data@),
{
    match shape {
        ArgShape::Raw => true,
        ArgShape::Null => {
            let n = null_vec();
            bytes_eq(data, &n)
        },
        ArgShape::KeyMap => read_arg_map(data).is_some(),
    }
}

fn null_vec() -> (r: Vec<u8>)
    ensures
        r@ == enc_null(),
{
    let mut v: Vec<u8> = Vec::new();
    crate::cbor::write_null(&mut v);
    proof {
        assert(v@ =~= enc_null());
    }
    v
}

// ------------------------------------------------------------------
// Endpoint naming.
// ------------------------------------------------------------------

/// Uppercases one ASCII letter.
pub open spec fn upper(b: u8) -> u8 {
    if 97 <= b <= 122 {
        (b - 32) as u8
    } else {
        b
    }
}

/// camelCase of a snake_case ASCII identifier: underscores are dropped
/// and the letter after each underscore is uppercased.
pub open spec fn camel(s: Seq<u8>) -> Seq<u8>
    decreases s.len(),
{
    if s.len() == 0 {
        Seq::empty()
    } else if s[0] == 95 {
        if s.len() >= 2 {
            seq![upper(s[1])] + camel(s.skip(2))
        } else {
            Seq::empty()
        }
    } else {
        seq![s[0]] + camel(s.skip(1))
    }
}

/// camelCase leaves a name without underscores unchanged.
pub proof fn lemma_camel_plain(s: Seq<u8>)
    requires
        forall|i: int| 0 <= i < s.len() ==> s[i] != 95,
    ensures
        camel(s) == s,
    decreases s.len(),
{
    if s.len() == 0 {
        assert(camel(s) =~= s);
    } else {
        assert(forall|i: int| 0 <= i < s.skip(1).len() ==> s.skip(1)[i] != 95);
        lemma_camel_plain(s.skip(1));
        assert(seq![s[0]] + s.skip(1) =~= s);
    }
}

/// The full endpoint name: `namespace + "." + camelCase(method)` when
/// the module declares a namespace, else `camelCase(method)`.
pub open spec fn endpoint_name(namespace: Option<Seq<u8>>, method: Seq<u8>) -> Seq<u8> {
    match namespace {
        Some(ns) => ns + seq![46u8] + camel(method),
        None => camel(method),
    }
}

/// camelCases an ASCII method name.
pub fn to_camel(s: &Vec<u8>) -> (r: Vec<u8>)
    ensures
        r@ == camel(s@),
    decreases s@.len(),
{
    let mut out: Vec<u8> = Vec::new();
    let mut i: usize = 0;
    proof {
        assert(s@.skip(0) =~= s@);
        assert(Seq::<u8>::empty() + camel(s@) =~= camel(s@));
    }
    while i < s.len()
        invariant
            i <= s.len(),
            camel(s@) == out@ + camel(s@.skip(i as int)),
        decreases s.len() - i,
    {
        let ghost pre = out@;
        if s[i] == 95 {
            if i + 1 < s.len() {
                let c = s[i + 1];
                let u: u8 = if 97 <= c && c <= 122 {
                    c - 32
                } else {
                    c
                };
                out.push(u);
                proof {
                    assert(s@.skip(i as int).skip(2) =~= s@.skip(i + 2));
                    assert(camel(s@.skip(i as int)) == seq![upper(c)] + camel(s@.skip(i + 2)));
                    assert(pre + (seq![upper(c)] + camel(s@.skip(i + 2))) =~= out@ + camel(
                        s@.skip(i + 2),
                    ));
                }
                i = i + 2;
            } else {
                proof {
                    assert(camel(s@.skip(i as int)) =~= Seq::<u8>::empty());
                    assert(pre + Seq::<u8>::empty() =~= out@ + camel(s@.skip(s@.len() as int)));
                    assert(camel(s@.skip(s@.len() as int)) =~= Seq::<u8>::empty());
                }
                i = i + 1;
                proof {
                    assert(camel(s@.skip(i as int)) =~= Seq::<u8>::empty());
                }
            }
        } else {
            out.push(s[i]);
            proof {
                assert(s@.skip(i as int).skip(1) =~= s@.skip(i + 1));
                assert(camel(s@.skip(i as int)) == seq![s@[i as int]] + camel(s@.skip(i + 1)));
                assert(pre + (seq![s@[i as int]] + camel(s@.skip(i + 1))) =~= out@ + camel(
                    s@.skip(i + 1),
                ));
            }
            i = i + 1;
        }
    }
    proof {
        assert(s@.skip(s@.len() as int) =~= Seq::<u8>::empty());
        assert(camel(Seq::<u8>::empty()) =~= Seq::<u8>::empty());
        assert(out@ + Seq::<u8>::empty() =~= out@);
    }
    out
}

// ------------------------------------------------------------------
// Interface description and dispatch.
// ------------------------------------------------------------------

/// One endpoint of a module: its full dotted name, its policy flags and
/// its argument shape.
#[derive(Debug)]
pub struct EndpointDecl {
    pub name: Vec<u8>,
    pub deny_anonymous: bool,
    pub check_webauthn: bool,
    pub arg: ArgShape,
}

/// Mathematical model of an endpoint declaration.
pub struct EndpointDeclV {
    pub name: Seq<u8>,
    pub deny_anonymous: bool,
    pub check_webauthn: bool,
    pub arg: ArgShape,
}

impl View for EndpointDecl {
    type V = EndpointDeclV;

    open spec fn view(&self) -> EndpointDeclV {
        EndpointDeclV {
            name: self.name@,
            deny_anonymous: self.deny_anonymous,
            check_webauthn: self.check_webauthn,
            arg: self.arg,
        }
    }
}

impl EndpointDecl {
    /// Declares an endpoint under a module namespace. The method name is
    /// camelCased; the namespace, when given, is prefixed with a dot.
    pub fn new(
        namespace: Option<&Vec<u8>>,
        method: &Vec<u8>,
        flags: &EndpointManyAttribute,
        arg: ArgShape,
    ) -> (r: EndpointDecl)
        ensures
            r@.name == endpoint_name(
                match namespace {
                    Some(ns) => Some(ns@),
                    None => None,
                },
                method@,
            ),
            r@.deny_anonymous == (flags.deny_anonymous == Some(true)),
            r@.check_webauthn == (flags.check_webauthn == Some(true)),
            r@.arg == arg,
    {
        let cm = to_camel(method);
        let name = match namespace {
            Some(ns) => {
                let mut n = crate::error::copy_bytes(ns);
                n.push(46);
                crate::cbor::push_all(&mut n, &cm);
                proof {
                    assert(n@ =~= ns@ + seq![46u8] + cm@);
                }
                n
            },
            None => cm,
        };
        EndpointDecl {
            name,
            deny_anonymous: flags.deny_anonymous(),
            check_webauthn: flags.check_webauthn(),
            arg,
        }
    }
}

/// The view of a vector of endpoint declarations.
pub open spec fn decls_view(v: Seq<EndpointDecl>) -> Seq<EndpointDeclV> {
    Seq::new(v.len(), |i: int| v[i]@)
}

/// The first endpoint whose name is `method`.
pub open spec fn find_endpoint(eps: Seq<EndpointDeclV>, method: Seq<u8>) -> Option<EndpointDeclV>
    decreases eps.len(),
{
    if eps.len() == 0 {
        None
    } else if eps[0].name == method {
        Some(eps[0])
    } else {
        find_endpoint(eps.skip(1), method)
    }
}

/// The index of the first endpoint whose name is `method`.
pub open spec fn find_endpoint_index(eps: Seq<EndpointDeclV>, method: Seq<u8>) -> Option<int>
    decreases eps.len(),
{
    if eps.len() == 0 {
        None
    } else if eps[0].name == method {
        Some(0)
    } else {
        match find_endpoint_index(eps.skip(1), method) {
            Some(i) => Some(i + 1),
            None => None,
        }
    }
}

/// A matching endpoint after a prefix of non-matching names is the
/// first match, by name and by index.
pub proof fn lemma_find_endpoint_at(eps: Seq<EndpointDeclV>, method: Seq<u8>, i: int)
    requires
        0 <= i < eps.len(),
        eps[i].name == method,
        forall|j: int| 0 <= j < i ==> #[trigger] eps[j].name != method,
    ensures
        find_endpoint(eps, method) == Some(eps[i]),
        find_endpoint_index(eps, method) == Some(i),
    decreases i,
{
    if i == 0 {
    } else {
        assert(eps[0].name != method);
        assert forall|j: int| 0 <= j < i - 1 implies #[trigger] eps.skip(1)[j].name != method by {
            assert(eps.skip(1)[j] == eps[j + 1]);
        }
        assert(eps.skip(1)[i - 1] == eps[i]);
        lemma_find_endpoint_at(eps.skip(1), method, i - 1);
    }
}

/// A module's registration record: name, advertised attribute and
/// endpoint declarations.
#[derive(Debug)]
pub struct ManyModuleInfo {
    pub name: Vec<u8>,
    pub attribute: Option<Attribute>,
    pub endpoints: Vec<EndpointDecl>,
}

/// What a backend call produces: result payload bytes, or the marker for
/// a deferred (asynchronous) result carrying the eventual payload.
#[derive(Debug)]
pub enum CallResult {
    Bytes(Vec<u8>),
    Async(Vec<u8>),
}

/// Mathematical model of a backend call's result.
pub enum CallResultV {
    Bytes(Seq<u8>),
    Async(Seq<u8>),
}

impl View for CallResult {
    type V = CallResultV;

    open spec fn view(&self) -> CallResultV {
        match self {
            CallResult::Bytes(b) => CallResultV::Bytes(b@),
            CallResult::Async(b) => CallResultV::Async(b@),
        }
    }
}

/// The view of a backend call's outcome.
pub open spec fn call_result_view(r: Result<CallResult, ManyError>) -> Result<
    CallResultV,
    ErrorV,
> {
    match r {
        Ok(c) => Ok(c@),
        Err(e) => Err(e@),
    }
}

/// A backend: one method, called with the endpoint's index in the
/// module's declaration order, the verified sender and the argument
/// bytes. Each implementation defines `call_ensures`, the relation its
/// `call` establishes between the backend before and after, the
/// arguments and the result; the dispatcher's contract hands that
/// relation through to callers.
pub trait ModuleBackend: Sized {
    /// Defaults to the trivial relation; backends in this crate override
    /// it with what their `call` actually guarantees.
    open spec fn call_ensures(
        pre: Self,
        post: Self,
        index: int,
        sender: crate::identity::IdentityV,
        data: Seq<u8>,
        r: Result<CallResultV, ErrorV>,
    ) -> bool {
        true
    }

    fn call(&mut self, index: usize, sender: &Identity, data: &Vec<u8>) -> (r: Result<
        CallResult,
        ManyError,
    >)
        ensures
            Self::call_ensures(
                *old(self),
                *final(self),
                index as int,
                sender@,
                data@,
                call_result_view(r),
            ),
    ;
}

/// A module: its interface description bound to a backend.
pub struct ManyModule<B: ModuleBackend> {
    pub info: ManyModuleInfo,
    pub backend: B,
}

/// What validation decides, as a function of the interface description,
/// the message and the envelope's webauthn flag: the error code it must
/// return, or nothing when the request is admitted.
pub open spec fn validate_spec(
    eps: Seq<EndpointDeclV>,
    method: Seq<u8>,
    from_anonymous: bool,
    data: Seq<u8>,
    webauthn: bool,
) -> Option<i64> {
    match find_endpoint(eps, method) {
        None => Some(crate::error::CODE_UNKNOWN_METHOD),
        Some(ep) => {
            if ep.deny_anonymous && from_anonymous {
                Some(crate::error::CODE_SENDER_CANNOT_BE_ANONYMOUS)
            } else if ep.check_webauthn && !webauthn {
                Some(crate::error::CODE_NON_WEBAUTHN_REQUEST_DENIED)
            } else if !arg_ok(ep.arg, data) {
                Some(crate::error::CODE_DESERIALIZATION_ERROR)
            } else {
                None
            }
        },
    }
}

/// Finds the endpoint index for a method name.
fn find_index(eps: &Vec<EndpointDecl>, method: &Vec<u8>) -> (r: Option<usize>)
    ensures
        match r {
            Some(i) => i < eps.len() && find_endpoint(decls_view(eps@), method@) == Some(
                eps@[i as int]@,
            ) && eps@[i as int]@.name == method@ && find_endpoint_index(decls_view(eps@), method@)
                == Some(i as int),
            None => find_endpoint(decls_view(eps@), method@) is None,
        },
{
    let ghost full = decls_view(eps@);
    let mut i: usize = 0;
    proof {
        assert(full.skip(0) =~= full);
    }
    while i < eps.len()
        invariant
            i <= eps.len(),
            full == decls_view(eps@),
            full.len() == eps.len(),
            find_endpoint(full, method@) == find_endpoint(full.skip(i as int), method@),
            forall|j: int| 0 <= j < i ==> #[trigger] full[j].name != method@,
        decreases eps.len() - i,
    {
        if bytes_eq(&eps[i].name, method) {
            proof {
                assert(full.skip(i as int)[0] == full[i as int]);
                lemma_find_endpoint_at(full, method@, i as int);
            }
            return Some(i);
        }
        proof {
            assert(full.skip(i as int)[0] == full[i as int]);
            assert(full.skip(i as int).skip(1) =~= full.skip(i + 1));
        }
        i = i + 1;
    }
    proof {
        assert(full.skip(i as int) =~= Seq::<EndpointDeclV>::empty());
    }
    None
}

impl<B: ModuleBackend> ManyModule<B> {
    /// Admission control for one request: endpoint lookup, anonymity and
    /// webauthn policy, argument decoding. No effect on the backend.
    pub fn validate(&self, message: &RequestMessage, webauthn: bool) -> (r: Result<(), ManyError>)
        ensures
            match validate_spec(
                decls_view(self.info.endpoints@),
                message@.method,
                message@.from is Anonymous,
                message@.data,
                webauthn,
            ) {
                Some(code) => r matches Err(e) && e.code == code,
                None => r is Ok,
            },
    {
        let idx = match find_index(&self.info.endpoints, &message.method) {
            Some(i) => i,
            None => {
                return Err(ManyError::invalid_method_name());
            },
        };
        let ep = &self.info.endpoints[idx];
        if ep.deny_anonymous && message.from.is_anonymous() {
            return Err(ManyError::sender_cannot_be_anonymous());
        }
        if ep.check_webauthn && !webauthn {
            return Err(ManyError::non_webauthn_request_denied());
        }
        if !check_arg(&ep.arg, &message.data) {
            return Err(ManyError::deserialization_error());
        }
        Ok(())
    }

    /// Executes one request against the backend. An unknown method or a
    /// malformed argument never reaches the backend; an admitted request
    /// is handed to the backend under the matched endpoint's index with
    /// the message's sender and argument bytes, and the backend's result
    /// is returned unchanged (as `call_ensures` relates it).
    pub fn execute(&mut self, message: &RequestMessage) -> (r: Result<CallResult, ManyError>)
        ensures
            ({
                let eps = decls_view(old(self).info.endpoints@);
                match find_endpoint(eps, message@.method) {
                    None => r matches Err(e) && e.code == crate::error::CODE_UNKNOWN_METHOD
                        && final(self).backend == old(self).backend,
                    Some(ep) => {
                        &&& !arg_ok(ep.arg, message@.data) ==> (r matches Err(e) && e.code
                            == crate::error::CODE_DESERIALIZATION_ERROR && final(self).backend
                            == old(self).backend)
                        &&& arg_ok(ep.arg, message@.data) ==> B::call_ensures(
                            old(self).backend,
                            final(self).backend,
                            find_endpoint_index(eps, message@.method)->Some_0,
                            message@.from,
                            message@.data,
                            call_result_view(r),
                        )
                    },
                }
            }),
            final(self).info == old(self).info,
    {
        let idx = match find_index(&self.info.endpoints, &message.method) {
            Some(i) => i,
            None => {
                return Err(ManyError::invalid_method_name());
            },
        };
        let shape = self.info.endpoints[idx].arg;
        if !check_arg(&shape, &message.data) {
            return Err(ManyError::deserialization_error());
        }
        self.backend.call(idx, &message.from, &message.data)
    }
}

} // verus!
