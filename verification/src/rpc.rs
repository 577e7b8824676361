//! The bookkeeping of the JSON-RPC connection to a language server: request
//! ids handed out in order, the requests still waiting for an answer,
//! answers routed to their requests, cancellations, and failing everything
//! still waiting when the connection ends. Writing and reading messages stay
//! with the caller, which hands in what happened and performs the action
//! returned.
use vstd::prelude::*;

use crate::text::append_text;

verus! {

/// The ids handed out so far and the requests still waiting.
pub struct RpcState {
    pub next_request_id: u64,
    pub pending: Vec<u64>,
    pub closed: bool,
}

/// The state by value: the next id, the waiting ids, whether the connection
/// has ended.
pub struct RpcModel {
    pub next_request_id: u64,
    pub pending: Set<u64>,
    pub closed: bool,
}

impl RpcState {
    /// The state by value.
    pub open spec fn model(&self) -> RpcModel {
        RpcModel { next_request_id: self.next_request_id, pending: self.pending@.to_set(), closed: self.closed }
    }

    /// Each waiting id once, and every one below the next id.
    pub open spec fn well_formed(&self) -> bool {
        &&& self.pending@.no_duplicates()
        &&& forall|i: int| 0 <= i < self.pending@.len() ==> #[trigger] self.pending@[i] < self.next_request_id
    }

    /// A connection with nothing sent yet; ids start at one.
    pub fn new() -> (s: Self)
        ensures
            s.well_formed(),
            s.model() == (RpcModel { next_request_id: 1, pending: Set::empty(), closed: false }),
    {
        let s = RpcState { next_request_id: 1, pending: Vec::new(), closed: false };
        assert(s.pending@.to_set() =~= Set::<u64>::empty());
        s
    }
}

/// What happened on the connection.
#[derive(Clone, Debug)]
pub enum RpcEvent {
    /// A caller asks to send a request.
    Request,
    /// The caller that asked for request `id` went away before learning its
    /// id.
    CallerGone { id: u64 },
    /// A caller gives up waiting for request `id`.
    Cancel { id: u64 },
    /// The server answered request `id`, with an error when `error` is set.
    Reply { id: u64, error: Option<String> },
    /// The connection ended: with an error, or closed.
    Ended { error: Option<String> },
}

/// What the caller does next.
#[derive(Clone, Debug)]
pub enum RpcAction {
    /// Write the request under this id and tell the caller the id.
    Send { id: u64 },
    /// Write `$/cancelRequest` for this id.
    WriteCancel { id: u64 },
    /// Hand the answer to the caller of request `id`: its result, or this
    /// error.
    Deliver { id: u64, error: Option<String> },
    /// Fail every request in `ids` with `message`, report the connection
    /// gone with it, and stop.
    FailAll { ids: Vec<u64>, message: String },
    /// Nothing to do.
    Nothing,
}

/// An action by value.
pub enum RpcActionView {
    Send(u64),
    WriteCancel(u64),
    Deliver(u64, Option<Seq<char>>),
    FailAll(Set<u64>, Seq<char>),
    Nothing,
}

/// An action by value (the ids of `FailAll` as a set).
pub open spec fn rpc_action_view(a: RpcAction) -> RpcActionView {
    match a {
        RpcAction::Send { id } => RpcActionView::Send(id),
        RpcAction::WriteCancel { id } => RpcActionView::WriteCancel(id),
        RpcAction::Deliver { id, error } => RpcActionView::Deliver(
            id,
            match error {
                Some(e) => Some(e@),
                None => None,
            },
        ),
        RpcAction::FailAll { ids, message } => RpcActionView::FailAll(ids@.to_set(), message@),
        RpcAction::Nothing => RpcActionView::Nothing,
    }
}

/// What the connection does with an event: a request gets the next id and
/// waits; a request whose caller is gone, or that is cancelled while it
/// waits, stops waiting and is cancelled at the server; an answer to a
/// waiting request is delivered (an error as `LSP request failed: ...`) and
/// the request stops waiting, an answer to anything else is dropped; when
/// the connection ends, everything still waiting fails with its error, or
/// with `LSP connection closed`. Once ended, nothing more happens.
pub open spec fn rpc_next(s: RpcModel, e: RpcEvent) -> (RpcModel, RpcActionView) {
    if s.closed {
        (s, RpcActionView::Nothing)
    } else {
        match e {
            RpcEvent::Request => (
                RpcModel {
                    next_request_id: (s.next_request_id + 1) as u64,
                    pending: s.pending.insert(s.next_request_id),
                    ..s
                },
                RpcActionView::Send(s.next_request_id),
            ),
            RpcEvent::CallerGone { id } => if s.pending.contains(id) {
                (RpcModel { pending: s.pending.remove(id), ..s }, RpcActionView::WriteCancel(id))
            } else {
                (s, RpcActionView::Nothing)
            },
            RpcEvent::Cancel { id } => if s.pending.contains(id) {
                (RpcModel { pending: s.pending.remove(id), ..s }, RpcActionView::WriteCancel(id))
            } else {
                (s, RpcActionView::Nothing)
            },
            RpcEvent::Reply { id, error } => if s.pending.contains(id) {
                (
                    RpcModel { pending: s.pending.remove(id), ..s },
                    RpcActionView::Deliver(
                        id,
                        match error {
                            Some(m) => Some("LSP request failed: "@ + m@),
                            None => None,
                        },
                    ),
                )
            } else {
                (s, RpcActionView::Nothing)
            },
            RpcEvent::Ended { error } => (
                RpcModel { pending: Set::empty(), closed: true, ..s },
                RpcActionView::FailAll(
                    s.pending,
                    match error {
                        Some(m) => m@,
                        None => "LSP connection closed"@,
                    },
                ),
            ),
        }
    }
}

/// The list without `id`, which it holds once.
fn without_id(list: &Vec<u64>, id: u64) -> (r: Vec<u64>)
    requires
        list@.no_duplicates(),
    ensures
        r@.no_duplicates(),
        r@.to_set() == list@.to_set().remove(id),
        forall|i: int| 0 <= i < r@.len() ==> list@.contains(#[trigger] r@[i]),
{
    let mut r: Vec<u64> = Vec::new();
    let mut i: usize = 0;
    while i < list.len()
        invariant
            i <= list@.len(),
            list@.no_duplicates(),
            r@.no_duplicates(),
            forall|k: int| 0 <= k < r@.len() ==> #[trigger] r@[k] != id && list@.subrange(0, i as int).contains(r@[k]),
            forall|k: int| 0 <= k < i && list@[k] != id ==> r@.contains(#[trigger] list@[k]),
        decreases list@.len() - i,
    {
        let x = list[i];
        let ghost r0 = r@;
        if x != id {
            let ghost before = r@;
            proof {
                assert forall|k: int| 0 <= k < before.len() implies before[k] != x by {
                    let j = choose|j: int| 0 <= j < i && list@.subrange(0, i as int)[j] == before[k];
                    assert(list@[j] == before[k]);
                }
            }
            r.push(x);
            proof {
                assert forall|a: int, b: int| 0 <= a < b < r@.len() implies r@[a] != r@[b] by {
                    if b < before.len() {
                        assert(r@[a] == before[a] && r@[b] == before[b]);
                    } else {
                        assert(r@[a] == before[a]);
                    }
                }
            }
        }
        proof {
            assert forall|k: int| 0 <= k < r@.len() implies #[trigger] r@[k] != id && list@.subrange(0, i + 1).contains(r@[k]) by {
                if list@.subrange(0, i as int).contains(r@[k]) {
                    let j = choose|j: int| 0 <= j < i && list@.subrange(0, i as int)[j] == r@[k];
                    assert(list@.subrange(0, i + 1)[j] == r@[k]);
                } else {
                    assert(list@.subrange(0, i + 1)[i as int] == r@[k]);
                }
            }
            assert forall|k: int| 0 <= k < i + 1 && list@[k] != id implies r@.contains(#[trigger] list@[k]) by {
                if k == i {
                    assert(r@[r@.len() - 1] == x);
                } else {
                    assert(r0.contains(list@[k]));
                    let j = choose|j: int| 0 <= j < r0.len() && r0[j] == list@[k];
                    assert(r@[j] == r0[j]);
                }
            }
        }
        i = i + 1;
    }
    proof {
        assert(list@.subrange(0, list@.len() as int) =~= list@);
        assert(r@.to_set() =~= list@.to_set().remove(id)) by {
            assert forall|x: u64| r@.to_set().contains(x) implies list@.to_set().remove(id).contains(x) by {
                let k = choose|k: int| 0 <= k < r@.len() && r@[k] == x;
                assert(r@.contains(r@[k]));
            }
            assert forall|x: u64| list@.to_set().remove(id).contains(x) implies r@.to_set().contains(x) by {
                let k = choose|k: int| 0 <= k < list@.len() && list@[k] == x;
                assert(list@[k] != id);
            }
        }
        assert forall|k: int| 0 <= k < r@.len() implies list@.contains(#[trigger] r@[k]) by {
            assert(list@.subrange(0, list@.len() as int).contains(r@[k]));
        }
    }
    r
}

/// Whether `id` waits.
fn waits(list: &Vec<u64>, id: u64) -> (b: bool)
    ensures
        b == list@.contains(id),
{
    let mut i: usize = 0;
    while i < list.len()
        invariant
            i <= list@.len(),
            forall|k: int| 0 <= k < i ==> list@[k] != id,
        decreases list@.len() - i,
    {
        if list[i] == id {
            assert(list@[i as int] == id);
            return true;
        }
        i = i + 1;
    }
    false
}

impl RpcState {
    /// Takes one event (see `rpc_next`).
    pub fn step(&mut self, e: RpcEvent) -> (a: RpcAction)
        requires
            old(self).well_formed(),
            e is Request ==> old(self).next_request_id < u64::MAX,
        ensures
            final(self).well_formed(),
            (final(self).model(), rpc_action_view(a)) == rpc_next(old(self).model(), e),
    {
        if self.closed {
            return RpcAction::Nothing;
        }
        match e {
            RpcEvent::Request => {
                let id = self.next_request_id;
                let ghost before = self.pending@;
                proof {
                    assert(!before.contains(id)) by {
                        if before.contains(id) {
                            let k = choose|k: int| 0 <= k < before.len() && before[k] == id;
                            assert(before[k] < id);
                        }
                    }
                }
                self.pending.push(id);
                self.next_request_id = id + 1;
                proof {
                    assert(self.pending@.to_set() =~= before.to_set().insert(id)) by {
                        assert forall|v: u64| self.pending@.to_set().contains(v) implies before.to_set().insert(id).contains(v) by {
                            let k = choose|k: int| 0 <= k < self.pending@.len() && self.pending@[k] == v;
                            if k < before.len() {
                                assert(self.pending@[k] == before[k]);
                                assert(before.contains(v));
                            }
                        }
                        assert forall|v: u64| before.to_set().insert(id).contains(v) implies self.pending@.to_set().contains(v) by {
                            if v == id {
                                assert(self.pending@[before.len() as int] == id);
                            } else {
                                let k = choose|k: int| 0 <= k < before.len() && before[k] == v;
                                assert(self.pending@[k] == before[k]);
                            }
                        }
                    }
                    assert forall|a: int, b: int| 0 <= a < b < self.pending@.len() implies self.pending@[a] != self.pending@[b] by {
                        assert(self.pending@[a] == before[a]);
                        if b < before.len() {
                            assert(self.pending@[b] == before[b]);
                        }
                    }
                    assert forall|i: int| 0 <= i < self.pending@.len() implies #[trigger] self.pending@[i] < self.next_request_id by {
                        if i < before.len() {
                            assert(self.pending@[i] == before[i]);
                        }
                    }
                }
                RpcAction::Send { id }
            },
            RpcEvent::CallerGone { id } => self.stop_waiting(id),
            RpcEvent::Cancel { id } => self.stop_waiting(id),
            RpcEvent::Reply { id, error } => {
                if !waits(&self.pending, id) {
                    return RpcAction::Nothing;
                }
                let rest = without_id(&self.pending, id);
                self.pending = rest;
                proof {
                    assert forall|i: int| 0 <= i < self.pending@.len() implies #[trigger] self.pending@[i] < self.next_request_id by {
                        assert(old(self).pending@.contains(self.pending@[i]));
                    }
                }
                let error = match error {
                    Some(m) => Some(append_text(String::from_str("LSP request failed: "), m.as_str())),
                    None => None,
                };
                RpcAction::Deliver { id, error }
            },
            RpcEvent::Ended { error } => {
                let mut ids: Vec<u64> = Vec::new();
                std::mem::swap(&mut ids, &mut self.pending);
                self.closed = true;
                let message = match error {
                    Some(m) => m,
                    None => String::from_str("LSP connection closed"),
                };
                proof {
                    assert(self.pending@.to_set() =~= Set::<u64>::empty());
                }
                RpcAction::FailAll { ids, message }
            },
        }
    }

    /// Stops waiting for `id`, cancelling it at the server, if it waits.
    fn stop_waiting(&mut self, id: u64) -> (a: RpcAction)
        requires
            old(self).well_formed(),
            !old(self).closed,
        ensures
            final(self).well_formed(),
            (final(self).model(), rpc_action_view(a)) == (if old(self).model().pending.contains(id) {
                (RpcModel { pending: old(self).model().pending.remove(id), ..old(self).model() }, RpcActionView::WriteCancel(id))
            } else {
                (old(self).model(), RpcActionView::Nothing)
            }),
    {
        if !waits(&self.pending, id) {
            return RpcAction::Nothing;
        }
        let rest = without_id(&self.pending, id);
        self.pending = rest;
        proof {
            assert forall|i: int| 0 <= i < self.pending@.len() implies #[trigger] self.pending@[i] < self.next_request_id by {
                assert(old(self).pending@.contains(self.pending@[i]));
            }
        }
        RpcAction::WriteCancel { id }
    }
}

/// An answer is delivered at most once: after it, the request no longer
/// waits, and a second answer to it is dropped.
pub proof fn lemma_reply_once(s: RpcModel, id: u64, first: Option<String>, second: Option<String>)
    requires
        !s.closed,
        s.pending.contains(id),
    ensures
        rpc_next(s, RpcEvent::Reply { id, error: first }).1 is Deliver,
        !rpc_next(s, RpcEvent::Reply { id, error: first }).0.pending.contains(id),
        rpc_next(rpc_next(s, RpcEvent::Reply { id, error: first }).0, RpcEvent::Reply { id, error: second }).1 is Nothing,
{
}

/// When the connection ends, every waiting request is failed and nothing
/// waits any more.
pub proof fn lemma_end_fails_all(s: RpcModel, error: Option<String>)
    requires
        !s.closed,
    ensures
        rpc_next(s, RpcEvent::Ended { error }).1 matches RpcActionView::FailAll(ids, _) && ids == s.pending,
        rpc_next(s, RpcEvent::Ended { error }).0.pending.is_empty(),
        rpc_next(s, RpcEvent::Ended { error }).0.closed,
{
}

} // verus!
