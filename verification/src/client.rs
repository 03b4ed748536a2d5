//! The client-side message plane: building and signing requests,
//! checking responses, and the bounded polling of asynchronous tokens.
//! The transport (HTTP) is the caller's concern: the client hands out
//! envelope bytes and consumes response bytes.

use vstd::prelude::*;
use vstd::string::StringSliceAdditionalSpecFns;

use crate::asyncmod::{parse_async_status, read_async_status, ASYNC_ATTRIBUTE_ID};
use crate::cose::{decode_response_from_cose_sign1, encode_cose_sign1_from_request,
    signed_envelope, CoseKeyIdentity};
use crate::error::ManyError;
use crate::identity::Identity;
use crate::message::{enc_request, RequestMessage, RequestV, ResponseMessage};

verus! {

/// Default number of polling attempts for an asynchronous token.
pub const DEFAULT_POLL_BUDGET: u64 = 60;

/// Default polling interval in seconds.
pub const DEFAULT_POLL_INTERVAL_SECS: u64 = 1;

/// A client: the destination identity and the key that signs requests.
pub struct ManyClient {
    pub to: Identity,
    pub key: CoseKeyIdentity,
}

impl ManyClient {
    pub open spec fn wf(self) -> bool {
        &&& self.key@.wf()
        &&& self.to@.wf()
    }

    pub fn new(to: Identity, key: CoseKeyIdentity) -> (r: ManyClient)
        requires
            to@.wf(),
            key@.wf(),
        ensures
            r.wf(),
            r.to@ == to@,
            r.key@ == key@,
    {
        ManyClient { to, key }
    }

    /// Builds the request message for a call: version 1, from this
    /// client's identity, to the destination, timestamped `now`.
    pub fn request(&self, method: &str, data: Vec<u8>, now: u64, id: Option<u64>) -> (r:
        RequestMessage)
        requires
            self.wf(),
        ensures
            r@.version == 1,
            r@.from == self.key@.identity,
            r@.to == self.to@,
            r@.method == method.spec_bytes(),
            r@.data == data@,
            r@.timestamp == now,
            r@.id == id,
            r@.nonce is None,
            r@.attributes.len() == 0,
            r@.wf(),
    {
        proof {
            crate::cose::lemma_key_identity_wf(self.key@);
        }
        RequestMessage {
            version: 1,
            from: self.key.identity.dup(),
            to: self.to.dup(),
            method: method.as_bytes_vec(),
            data,
            timestamp: now,
            id,
            nonce: None,
            attributes: Vec::new(),
        }
    }

    /// Builds and signs the envelope for a call.
    pub fn call_envelope(&self, method: &str, data: Vec<u8>, now: u64, id: Option<u64>) -> (r: Vec<
        u8,
    >)
        requires
            self.wf(),
        ensures
            exists|m: RequestV|
                #![auto]
                m.version == 1 && m.from == self.key@.identity && m.to == self.to@ && m.method
                    == method.spec_bytes() && m.data == data@ && m.timestamp == now && m.id == id
                    && r@ == signed_envelope(self.key@, enc_request(m), false),
    {
        let msg = self.request(method, data, now, id);
        let env = match encode_cose_sign1_from_request(&msg, &self.key) {
            Ok(env) => env,
            Err(_) => Vec::new(),
        };
        proof {
            assert(env@ == signed_envelope(self.key@, enc_request(msg@), false));
        }
        env
    }

    /// Checks and decodes a response envelope; the responder must be the
    /// client's destination.
    pub fn process_response(&self, bytes: &Vec<u8>) -> (r: Result<ResponseMessage, ManyError>)
        requires
            self.wf(),
        ensures
            match r {
                Ok(m) => crate::cose::decode_response_spec(bytes@) == Some(m@) && m@.from
                    == self.to@,
                Err(e) => e.code < 0,
            },
    {
        decode_response_from_cose_sign1(bytes, Some(&self.to))
    }
}

/// Extracts the async token from a response: the payload must be empty
/// and an async attribute must carry the token.
pub fn async_token_of(m: &ResponseMessage) -> (r: Option<Vec<u8>>)
    ensures
        match r {
            Some(t) => m@.data is Ok && m@.data->Ok_0.len() == 0 && (exists|i: int|
                0 <= i < m@.attributes.len() && #[trigger] m@.attributes[i].id
                    == ASYNC_ATTRIBUTE_ID && m@.attributes[i].argument == Some(t@)),
            None => !(m@.data is Ok && m@.data->Ok_0.len() == 0) || (forall|i: int|
                0 <= i < m@.attributes.len() ==> !(#[trigger] m@.attributes[i].id
                    == ASYNC_ATTRIBUTE_ID && m@.attributes[i].argument is Some)),
        },
{
    match &m.data {
        Ok(d) => {
            let n = d.len();
            proof {
                assert(m@.data == Ok::<Seq<u8>, crate::error::ErrorV>(d@));
            }
            if n != 0 {
                return None;
            }
            proof {
                assert(d@.len() == 0);
            }
            let mut i: usize = 0;
            while i < m.attributes.len()
                invariant
                    i <= m.attributes.len(),
                    m@.data is Ok,
                    m@.data->Ok_0.len() == 0,
                    forall|j: int|
                        0 <= j < i ==> !(#[trigger] m@.attributes[j].id == ASYNC_ATTRIBUTE_ID
                            && m@.attributes[j].argument is Some),
                decreases m.attributes.len() - i,
            {
                if m.attributes[i].id == ASYNC_ATTRIBUTE_ID {
                    match &m.attributes[i].argument {
                        Some(t) => {
                            let out = crate::error::copy_bytes(t);
                            proof {
                                assert(m@.attributes[i as int] == m.attributes@[i as int]@);
                                assert(m@.attributes[i as int].id == ASYNC_ATTRIBUTE_ID
                                    && m@.attributes[i as int].argument == Some(out@));
                                assert(exists|j: int|
                                    0 <= j < m@.attributes.len() && #[trigger] m@.attributes[j].id
                                        == ASYNC_ATTRIBUTE_ID && m@.attributes[j].argument == Some(
                                        out@,
                                    ));
                            }
                            return Some(out);
                        },
                        None => {},
                    }
                }
                proof {
                    assert(m@.attributes[i as int] == m.attributes@[i as int]@);
                }
                i = i + 1;
            }
            None
        },
        Err(_) => None,
    }
}

/// What one polling step decides.
pub enum PollOutcome {
    /// Not ready; poll again after the interval.
    Continue,
    /// The eventual response, decoded from the status answer.
    Done(ResponseMessage),
    /// The token expired on the server before completion.
    Expired,
    /// The polling budget is exhausted.
    TimedOut,
    /// The status answer was unreadable or named an unknown token.
    Failed(ManyError),
}

/// The client-side polling state for one async token.
pub struct AsyncPoll {
    pub token: Vec<u8>,
    pub attempts_left: u64,
}

impl AsyncPoll {
    pub fn new(token: Vec<u8>, budget: u64) -> (r: AsyncPoll)
        ensures
            r.token@ == token@,
            r.attempts_left == budget,
    {
        AsyncPoll { token, attempts_left: budget }
    }

    /// Consumes one status-answer payload and decides: done, expired,
    /// failed, timed out, or poll again. Every `Continue` outcome
    /// strictly decreases the remaining budget, and a zero budget never
    /// continues, so polling performs at most the budget's number of
    /// steps.
    pub fn step(&mut self, status_payload: &Vec<u8>) -> (r: PollOutcome)
        ensures
            final(self).token@ == old(self).token@,
            final(self).attempts_left <= old(self).attempts_left,
            r is Continue ==> old(self).attempts_left > 0 && final(self).attempts_left == old(
                self,
            ).attempts_left - 1,
            old(self).attempts_left == 0 <==> r is TimedOut,
            old(self).attempts_left > 0 ==> match parse_async_status(status_payload@) {
                None => r is Failed,
                Some((kind, resp)) => {
                    &&& kind == 3 ==> (match resp {
                        Some(bytes) => match crate::message::parse_response(bytes) {
                            Some(mv) => r matches PollOutcome::Done(m) && m@ == mv,
                            None => r is Failed,
                        },
                        None => r is Failed,
                    })
                    &&& kind == 4 ==> r is Expired
                    &&& (kind == 1 || kind == 2) ==> r is Continue
                    &&& !(1 <= kind <= 4) ==> r is Failed
                },
            },
    {
        if self.attempts_left == 0 {
            return PollOutcome::TimedOut;
        }
        match read_async_status(status_payload) {
            None => PollOutcome::Failed(ManyError::deserialization_error()),
            Some((kind, resp)) => {
                if kind == 3 {
                    match resp {
                        Some(bytes) => match ResponseMessage::from_bytes(&bytes) {
                            Ok(m) => PollOutcome::Done(m),
                            Err(e) => PollOutcome::Failed(e),
                        },
                        None => PollOutcome::Failed(ManyError::deserialization_error()),
                    }
                } else if kind == 4 {
                    PollOutcome::Expired
                } else if kind == 1 || kind == 2 {
                    self.attempts_left = self.attempts_left - 1;
                    PollOutcome::Continue
                } else {
                    PollOutcome::Failed(ManyError::async_unknown())
                }
            },
        }
    }
}

/// Poll termination: a run of budgets recorded after consecutive
/// `Continue` outcomes is strictly decreasing, so it is no longer than
/// the starting budget allows.
pub proof fn lemma_poll_terminates(budgets: Seq<u64>)
    requires
        budgets.len() >= 1,
        forall|i: int| 0 < i < budgets.len() ==> #[trigger] budgets[i] < budgets[i - 1],
    ensures
        budgets.len() <= budgets[0] + 1,
    decreases budgets.len(),
{
    if budgets.len() >= 2 {
        lemma_poll_terminates(budgets.skip(1));
        assert(budgets.skip(1)[0] == budgets[1]);
        assert(forall|i: int|
            0 < i < budgets.skip(1).len() ==> #[trigger] budgets.skip(1)[i] < budgets.skip(1)[i
                - 1]);
    }
}

} // verus!
