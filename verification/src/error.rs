//! The error type that every fallible operation of the framework returns.
//! Reserved (framework) codes are negative; application codes are
//! non-negative.

use vstd::prelude::*;

verus! {

pub const CODE_INTERNAL_SERVER_ERROR: i64 = -1;
pub const CODE_MALFORMED_ENVELOPE: i64 = -2;
pub const CODE_UNKNOWN_ALG: i64 = -3;
pub const CODE_SIGNATURE_MISMATCH: i64 = -4;
pub const CODE_IDENTITY_MISMATCH: i64 = -5;
pub const CODE_NON_WEBAUTHN_REQUEST_DENIED: i64 = -6;
pub const CODE_UNKNOWN_METHOD: i64 = -7;
pub const CODE_DUPLICATE_ENDPOINT: i64 = -8;
pub const CODE_DESERIALIZATION_ERROR: i64 = -9;
pub const CODE_SERIALIZATION_ERROR: i64 = -10;
pub const CODE_SENDER_CANNOT_BE_ANONYMOUS: i64 = -11;
pub const CODE_ASYNC_UNKNOWN: i64 = -12;
pub const CODE_ASYNC_EXPIRED: i64 = -13;
pub const CODE_ASYNC_TIMEOUT: i64 = -14;
pub const CODE_UNEXPECTED_RESPONDER: i64 = -15;
pub const CODE_ANONYMOUS_DISALLOWED: i64 = -16;
pub const CODE_INVALID_TEXTUAL: i64 = -17;
pub const CODE_HSM_CONFLICT: i64 = -18;
pub const CODE_INVALID_KEY: i64 = -19;
/// Application-level code raised when a ledger symbol cannot be resolved.
pub const CODE_SYMBOL_NOT_FOUND: i64 = 100;

/// An RPC-level error: a code and a human-readable message (UTF-8 bytes).
#[derive(Debug)]
pub struct ManyError {
    pub code: i64,
    pub message: Vec<u8>,
}

/// Mathematical model of an error.
pub struct ErrorV {
    pub code: i64,
    pub message: Seq<u8>,
}

impl View for ManyError {
    type V = ErrorV;

    open spec fn view(&self) -> ErrorV {
        ErrorV { code: self.code, message: self.message@ }
    }
}

impl ManyError {
    /// Reserved codes belong to the framework itself.
    pub open spec fn is_reserved(self) -> bool {
        self.code < 0
    }

    pub fn new(code: i64, message: &str) -> (r: ManyError)
        ensures
            r.code == code,
    {
        ManyError { code, message: message.as_bytes_vec() }
    }

    pub fn dup(&self) -> (r: ManyError)
        ensures
            r.code == self.code,
    {
        ManyError { code: self.code, message: crate::error::copy_bytes(&self.message) }
    }

    pub fn internal_server_error() -> (r: ManyError)
        ensures
            r.code == CODE_INTERNAL_SERVER_ERROR,
    {
        ManyError::new(CODE_INTERNAL_SERVER_ERROR, "internal server error")
    }

    pub fn malformed_envelope() -> (r: ManyError)
        ensures
            r.code == CODE_MALFORMED_ENVELOPE,
    {
        ManyError::new(CODE_MALFORMED_ENVELOPE, "malformed envelope")
    }

    pub fn unknown_alg() -> (r: ManyError)
        ensures
            r.code == CODE_UNKNOWN_ALG,
    {
        ManyError::new(CODE_UNKNOWN_ALG, "unsupported signature algorithm")
    }

    pub fn signature_mismatch() -> (r: ManyError)
        ensures
            r.code == CODE_SIGNATURE_MISMATCH,
    {
        ManyError::new(CODE_SIGNATURE_MISMATCH, "signature does not verify")
    }

    pub fn identity_mismatch() -> (r: ManyError)
        ensures
            r.code == CODE_IDENTITY_MISMATCH,
    {
        ManyError::new(CODE_IDENTITY_MISMATCH, "key id does not match the key")
    }

    pub fn non_webauthn_request_denied() -> (r: ManyError)
        ensures
            r.code == CODE_NON_WEBAUTHN_REQUEST_DENIED,
    {
        ManyError::new(CODE_NON_WEBAUTHN_REQUEST_DENIED, "non-webauthn request denied")
    }

    pub fn invalid_method_name() -> (r: ManyError)
        ensures
            r.code == CODE_UNKNOWN_METHOD,
    {
        ManyError::new(CODE_UNKNOWN_METHOD, "invalid method name")
    }

    pub fn duplicate_endpoint() -> (r: ManyError)
        ensures
            r.code == CODE_DUPLICATE_ENDPOINT,
    {
        ManyError::new(CODE_DUPLICATE_ENDPOINT, "duplicate endpoint name")
    }

    pub fn deserialization_error() -> (r: ManyError)
        ensures
            r.code == CODE_DESERIALIZATION_ERROR,
    {
        ManyError::new(CODE_DESERIALIZATION_ERROR, "could not deserialize")
    }

    pub fn serialization_error() -> (r: ManyError)
        ensures
            r.code == CODE_SERIALIZATION_ERROR,
    {
        ManyError::new(CODE_SERIALIZATION_ERROR, "could not serialize")
    }

    pub fn sender_cannot_be_anonymous() -> (r: ManyError)
        ensures
            r.code == CODE_SENDER_CANNOT_BE_ANONYMOUS,
    {
        ManyError::new(CODE_SENDER_CANNOT_BE_ANONYMOUS, "sender cannot be anonymous")
    }

    pub fn async_unknown() -> (r: ManyError)
        ensures
            r.code == CODE_ASYNC_UNKNOWN,
    {
        ManyError::new(CODE_ASYNC_UNKNOWN, "async token unknown")
    }

    pub fn async_expired() -> (r: ManyError)
        ensures
            r.code == CODE_ASYNC_EXPIRED,
    {
        ManyError::new(CODE_ASYNC_EXPIRED, "async token expired")
    }

    pub fn async_timeout() -> (r: ManyError)
        ensures
            r.code == CODE_ASYNC_TIMEOUT,
    {
        ManyError::new(CODE_ASYNC_TIMEOUT, "async polling timed out")
    }

    pub fn unexpected_responder() -> (r: ManyError)
        ensures
            r.code == CODE_UNEXPECTED_RESPONDER,
    {
        ManyError::new(CODE_UNEXPECTED_RESPONDER, "response from unexpected identity")
    }

    pub fn anonymous_disallowed() -> (r: ManyError)
        ensures
            r.code == CODE_ANONYMOUS_DISALLOWED,
    {
        ManyError::new(CODE_ANONYMOUS_DISALLOWED, "anonymous envelope disallowed")
    }

    pub fn invalid_textual() -> (r: ManyError)
        ensures
            r.code == CODE_INVALID_TEXTUAL,
    {
        ManyError::new(CODE_INVALID_TEXTUAL, "invalid textual identity")
    }

    pub fn invalid_key() -> (r: ManyError)
        ensures
            r.code == CODE_INVALID_KEY,
    {
        ManyError::new(CODE_INVALID_KEY, "invalid secret key")
    }

    pub fn symbol_not_found() -> (r: ManyError)
        ensures
            r.code == CODE_SYMBOL_NOT_FOUND,
    {
        ManyError::new(CODE_SYMBOL_NOT_FOUND, "symbol not found")
    }
}

/// Byte-for-byte copy of a byte vector.
pub fn copy_bytes(v: &Vec<u8>) -> (r: Vec<u8>)
    ensures
        r@ == v@,
{
    let mut out: Vec<u8> = Vec::new();
    let mut i: usize = 0;
    while i < v.len()
        invariant
            i <= v.len(),
            out@ == v@.subrange(0, i as int),
        decreases v.len() - i,
    {
        out.push(v[i]);
        i = i + 1;
        proof {
            assert(out@ =~= v@.subrange(0, i as int));
        }
    }
    proof {
        assert(out@ =~= v@);
    }
    out
}

} // verus!
