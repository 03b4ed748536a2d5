//! The asynchronous-response manager: opaque tokens naming deferred
//! results, their lifecycle (pending, done, expired) and the
//! `async.status` answer codec.
//!
//! Lifecycle law: progress is one way. A done or expired token never
//! changes state again, and a pending token only moves to done or
//! expired; this is stated in the contract of `status`.

use vstd::prelude::*;

use crate::cbor::{enc_bytes, enc_map_head, enc_uint, parse_bytes, parse_map_head, parse_uint,
    read_bytes, read_map_head, read_uint, write_bytes, write_map_head, write_uint};
use crate::error::ManyError;
use crate::identity::bytes_eq;
use crate::message::parse_key;

verus! {

/// Time to live of a pending token, in seconds.
pub const ASYNC_TTL_SECS: u64 = 60;

/// The attribute id that carries an async token in a response.
pub const ASYNC_ATTRIBUTE_ID: u32 = 1;

/// The state of one token.
#[derive(Debug)]
pub enum AsyncState {
    /// The result is not ready; it becomes visible at the next status
    /// query and expires at `deadline`.
    Pending { response: Vec<u8>, deadline: u64 },
    /// The result is ready; `response` is the encoded eventual response.
    Done { response: Vec<u8> },
    /// The time to live elapsed before the result was observed.
    Expired,
}

impl AsyncState {
    /// Lifecycle rank: pending can move forward, done and expired are
    /// terminal.
    pub open spec fn rank(self) -> int {
        match self {
            AsyncState::Pending { response, deadline } => 0,
            AsyncState::Done { response } => 1,
            AsyncState::Expired => 1,
        }
    }
}

/// What a status query answers.
#[derive(Debug)]
pub enum AsyncStatus {
    Unknown,
    Queued,
    Done { response: Vec<u8> },
    Expired,
}

/// One registered token.
#[derive(Debug)]
pub struct AsyncEntry {
    pub token: Vec<u8>,
    pub state: AsyncState,
}

/// The token table.
#[derive(Debug)]
pub struct AsyncManager {
    pub entries: Vec<AsyncEntry>,
}

/// The index of the first entry holding `token`.
pub open spec fn find_first(entries: Seq<AsyncEntry>, token: Seq<u8>) -> Option<int>
    decreases entries.len(),
{
    if entries.len() == 0 {
        None
    } else if entries[0].token@ == token {
        Some(0)
    } else {
        match find_first(entries.skip(1), token) {
            Some(i) => Some(i + 1),
            None => None,
        }
    }
}

/// An entry that matches after a prefix of non-matching entries is the
/// first match.
pub proof fn lemma_find_first_at(entries: Seq<AsyncEntry>, token: Seq<u8>, i: int)
    requires
        0 <= i < entries.len(),
        entries[i].token@ == token,
        forall|j: int| 0 <= j < i ==> #[trigger] entries[j].token@ != token,
    ensures
        find_first(entries, token) == Some(i),
    decreases i,
{
    if i == 0 {
    } else {
        assert(entries[0].token@ != token);
        assert forall|j: int| 0 <= j < i - 1 implies #[trigger] entries.skip(1)[j].token@
            != token by {
            assert(entries.skip(1)[j] == entries[j + 1]);
        }
        assert(entries.skip(1)[i - 1] == entries[i]);
        lemma_find_first_at(entries.skip(1), token, i - 1);
    }
}

/// When no entry matches, there is no first match.
pub proof fn lemma_find_first_none(entries: Seq<AsyncEntry>, token: Seq<u8>)
    requires
        forall|j: int| 0 <= j < entries.len() ==> #[trigger] entries[j].token@ != token,
    ensures
        find_first(entries, token) is None,
    decreases entries.len(),
{
    if entries.len() > 0 {
        assert forall|j: int|
            0 <= j < entries.skip(1).len() implies #[trigger] entries.skip(1)[j].token@
            != token by {
            assert(entries.skip(1)[j] == entries[j + 1]);
        }
        lemma_find_first_none(entries.skip(1), token);
    }
}

/// What a status query answers, as a function of the stored table: a
/// kind (0 unknown, 3 done, 4 expired) and the recorded response for a
/// done token. A pending token whose deadline has not passed is done at
/// the moment of the query.
pub open spec fn async_answer(entries: Seq<AsyncEntry>, token: Seq<u8>, now: u64) -> (u64, Option<
    Seq<u8>,
>) {
    match find_first(entries, token) {
        None => (0, None),
        Some(i) => match entries[i].state {
            AsyncState::Pending { response, deadline } => if now >= deadline {
                (4, None)
            } else {
                (3, Some(response@))
            },
            AsyncState::Done { response } => (3, Some(response@)),
            AsyncState::Expired => (4, None),
        },
    }
}

impl AsyncManager {
    pub fn new() -> (r: AsyncManager)
        ensures
            r.entries@.len() == 0,
    {
        AsyncManager { entries: Vec::new() }
    }

    /// Registers a fresh token whose eventual response is `response`.
    pub fn register(&mut self, token: Vec<u8>, response: Vec<u8>, now: u64)
        ensures
            final(self).entries@.len() == old(self).entries@.len() + 1,
            final(self).entries@[old(self).entries@.len() as int].token@ == token@,
            final(self).entries@[old(self).entries@.len() as int].state matches AsyncState::Pending {
                response: r,
                deadline,
            } && r@ == response@ && deadline >= now,
            forall|i: int|
                0 <= i < old(self).entries@.len() ==> final(self).entries@[i] == old(
                    self,
                ).entries@[i],
    {
        let deadline: u64 = if now > 18446744073709551615 - ASYNC_TTL_SECS {
            18446744073709551615
        } else {
            now + ASYNC_TTL_SECS
        };
        self.entries.push(AsyncEntry { token, state: AsyncState::Pending { response, deadline } });
    }

    /// Answers a status query and advances the token's state. The
    /// answer is exactly `async_answer` of the stored table, and the
    /// transition is monotone: the state's rank never decreases, a done
    /// token stays done with the same response, an expired token stays
    /// expired, and an unknown token leaves the table unchanged.
    pub fn status(&mut self, token: &Vec<u8>, now: u64) -> (r: AsyncStatus)
        ensures
            final(self).entries@.len() == old(self).entries@.len(),
            forall|i: int|
                0 <= i < old(self).entries@.len() ==> #[trigger] final(self).entries@[i].token@
                    == old(self).entries@[i].token@,
            forall|i: int|
                0 <= i < old(self).entries@.len() ==> #[trigger] final(self).entries@[i].state.rank()
                    >= old(self).entries@[i].state.rank(),
            forall|i: int|
                0 <= i < old(self).entries@.len() && !(old(self).entries@[i].token@ == token@)
                    ==> #[trigger] final(self).entries@[i].state == old(self).entries@[i].state,
            forall|i: int|
                0 <= i < old(self).entries@.len() && (old(self).entries@[i].state matches AsyncState::Done { response })
                    ==> #[trigger] final(self).entries@[i].state == old(self).entries@[i].state,
            forall|i: int|
                0 <= i < old(self).entries@.len() && old(self).entries@[i].state
                    == AsyncState::Expired ==> final(self).entries@[i].state == AsyncState::Expired,
            (match r {
                AsyncStatus::Unknown => async_answer(old(self).entries@, token@, now).0 == 0,
                AsyncStatus::Queued => false,
                AsyncStatus::Done { response } => async_answer(old(self).entries@, token@, now)
                    == (3u64, Some(response@)),
                AsyncStatus::Expired => async_answer(old(self).entries@, token@, now).0 == 4,
            }),
            match find_first(old(self).entries@, token@) {
                None => final(self).entries@ == old(self).entries@,
                Some(i) => match old(self).entries@[i].state {
                    AsyncState::Pending { response, deadline } => if now >= deadline {
                        final(self).entries@[i].state == AsyncState::Expired
                    } else {
                        final(self).entries@[i].state matches AsyncState::Done { response: rr }
                            && rr@ == response@
                    },
                    _ => final(self).entries@[i] == old(self).entries@[i],
                },
            },
    {
        let n = self.entries.len();
        let mut i: usize = 0;
        while i < n
            invariant
                i <= n,
                n == self.entries.len(),
                self.entries@.len() == old(self).entries@.len(),
                forall|j: int|
                    0 <= j < old(self).entries@.len() ==> #[trigger] self.entries@[j] == old(self).entries@[j],
                forall|j: int| 0 <= j < i ==> #[trigger] old(self).entries@[j].token@ != token@,
            decreases n - i,
        {
            if bytes_eq(&self.entries[i].token, token) {
                proof {
                    lemma_find_first_at(old(self).entries@, token@, i as int);
                }
                let entry_state_kind: u8 = match &self.entries[i].state {
                    AsyncState::Pending { response, deadline } => {
                        if now >= *deadline {
                            2
                        } else {
                            1
                        }
                    },
                    AsyncState::Done { response } => 3,
                    AsyncState::Expired => 4,
                };
                if entry_state_kind == 1 {
                    // Pending and not expired: the result becomes ready.
                    let old_entry = self.entries.remove(i);
                    let response = match old_entry.state {
                        AsyncState::Pending { response, deadline } => response,
                        _ => Vec::new(),
                    };
                    let out = crate::error::copy_bytes(&response);
                    self.entries.insert(
                        i,
                        AsyncEntry {
                            token: old_entry.token,
                            state: AsyncState::Done { response },
                        },
                    );
                    proof {
                        assert(forall|j: int|
                            0 <= j < old(self).entries@.len() && j != i
                                ==> #[trigger] self.entries@[j] == old(self).entries@[j]);
                    }
                    return AsyncStatus::Done { response: out };
                } else if entry_state_kind == 2 {
                    // Pending and past its deadline: it expires.
                    let old_entry = self.entries.remove(i);
                    self.entries.insert(
                        i,
                        AsyncEntry { token: old_entry.token, state: AsyncState::Expired },
                    );
                    proof {
                        assert(forall|j: int|
                            0 <= j < old(self).entries@.len() && j != i
                                ==> #[trigger] self.entries@[j] == old(self).entries@[j]);
                    }
                    return AsyncStatus::Expired;
                } else if entry_state_kind == 3 {
                    let response = match &self.entries[i].state {
                        AsyncState::Done { response } => crate::error::copy_bytes(response),
                        _ => Vec::new(),
                    };
                    return AsyncStatus::Done { response };
                } else {
                    return AsyncStatus::Expired;
                }
            }
            i = i + 1;
        }
        proof {
            lemma_find_first_none(old(self).entries@, token@);
            assert(self.entries@ =~= old(self).entries@);
        }
        AsyncStatus::Unknown
    }
}

// ------------------------------------------------------------------
// The async.status answer codec: a map {0: kind, 1?: response bytes}.
// Kinds: 0 unknown, 1 queued, 3 done, 4 expired.
// ------------------------------------------------------------------

/// Encoding of a status answer.
pub open spec fn enc_async_status(kind: u64, response: Option<Seq<u8>>) -> Seq<u8> {
    match response {
        Some(r) => enc_map_head(2) + enc_uint(0) + enc_uint(kind) + enc_uint(1) + enc_bytes(r),
        None => enc_map_head(1) + enc_uint(0) + enc_uint(kind),
    }
}

/// Parses a status answer; the input must be consumed exactly.
pub open spec fn parse_async_status(s: Seq<u8>) -> Option<(u64, Option<Seq<u8>>)> {
    match parse_map_head(s) {
        None => None,
        Some((c, p0)) => match parse_key(s.skip(p0), 0) {
            None => None,
            Some(p1) => match parse_uint(s.skip(p0 + p1)) {
                None => None,
                Some((kind, p2)) => {
                    let q = p0 + p1 + p2;
                    if c == 1 {
                        if q == s.len() {
                            Some((kind, None))
                        } else {
                            None
                        }
                    } else if c == 2 {
                        match parse_key(s.skip(q), 1) {
                            None => None,
                            Some(p3) => match parse_bytes(s.skip(q + p3)) {
                                None => None,
                                Some((r, p4)) => if q + p3 + p4 == s.len() {
                                    Some((kind, Some(r)))
                                } else {
                                    None
                                },
                            },
                        }
                    } else {
                        None
                    }
                },
            },
        },
    }
}

/// Encodes a status answer.
pub fn write_async_status(st: &AsyncStatus) -> (r: Vec<u8>)
    ensures
        r@ == (match st {
            AsyncStatus::Unknown => enc_async_status(0, None),
            AsyncStatus::Queued => enc_async_status(1, None),
            AsyncStatus::Done { response } => enc_async_status(3, Some(response@)),
            AsyncStatus::Expired => enc_async_status(4, None),
        }),
{
    let mut out: Vec<u8> = Vec::new();
    match st {
        AsyncStatus::Unknown => {
            write_map_head(&mut out, 1);
            write_uint(&mut out, 0);
            write_uint(&mut out, 0);
        },
        AsyncStatus::Queued => {
            write_map_head(&mut out, 1);
            write_uint(&mut out, 0);
            write_uint(&mut out, 1);
        },
        AsyncStatus::Done { response } => {
            write_map_head(&mut out, 2);
            write_uint(&mut out, 0);
            write_uint(&mut out, 3);
            write_uint(&mut out, 1);
            write_bytes(&mut out, response);
        },
        AsyncStatus::Expired => {
            write_map_head(&mut out, 1);
            write_uint(&mut out, 0);
            write_uint(&mut out, 4);
        },
    }
    proof {
        assert(out@ =~= (match st {
            AsyncStatus::Unknown => enc_async_status(0, None),
            AsyncStatus::Queued => enc_async_status(1, None),
            AsyncStatus::Done { response } => enc_async_status(3, Some(response@)),
            AsyncStatus::Expired => enc_async_status(4, None),
        }));
    }
    out
}

/// Decodes a status answer.
pub fn read_async_status(b: &Vec<u8>) -> (r: Option<(u64, Option<Vec<u8>>)>)
    ensures
        match r {
            Some((kind, resp)) => parse_async_status(b@) == Some(
                (
                    kind,
                    match resp {
                        Some(v) => Some(v@),
                        None => None,
                    },
                ),
            ),
            None => parse_async_status(b@) is None,
        },
{
    proof {
        assert(b@.skip(0) =~= b@);
    }
    let (c, p0) = match read_map_head(b, 0) {
        Some(v) => v,
        None => {
            return None;
        },
    };
    let (k, p1) = match read_uint(b, p0) {
        Some(v) => v,
        None => {
            return None;
        },
    };
    if k != 0 {
        return None;
    }
    proof {
        assert(b@.skip(p0 as int).skip((p1 - p0) as int) =~= b@.skip(p1 as int));
    }
    let (kind, p2) = match read_uint(b, p1) {
        Some(v) => v,
        None => {
            return None;
        },
    };
    if c == 1 {
        if p2 != b.len() {
            return None;
        }
        Some((kind, None))
    } else if c == 2 {
        proof {
            assert(b@.skip(p1 as int).skip((p2 - p1) as int) =~= b@.skip(p2 as int));
        }
        let (k1, p3) = match read_uint(b, p2) {
            Some(v) => v,
            None => {
                return None;
            },
        };
        if k1 != 1 {
            return None;
        }
        proof {
            assert(b@.skip(p2 as int).skip((p3 - p2) as int) =~= b@.skip(p3 as int));
        }
        let (resp, p4) = match read_bytes(b, p3) {
            Some(v) => v,
            None => {
                return None;
            },
        };
        if p4 != b.len() {
            return None;
        }
        Some((kind, Some(resp)))
    } else {
        None
    }
}

} // verus!
