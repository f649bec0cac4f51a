//! One worker's channel: the pending-request table that correlates responses
//! with their waiters, request-id allocation, and the channel's life cycle.
//!
//! The channel does no I/O. Sending hands back the frame to write; each line
//! read from the worker is handed in and the channel says what to do with it.
//! A waiter is whatever the caller uses to complete a request (`W`).
use vstd::prelude::*;
use crate::error::FarmError;
use crate::frame::{
    copy_bytes,
    decimal,
    digits_value,
    has_line_feed,
    is_id_text,
    no_line_feed,
    parse_request_id,
    request_frame,
    write_request_frame,
};

verus! {

/// Why a channel failed.
#[derive(PartialEq, Eq, Structural, Clone, Copy, Debug)]
pub enum Fault {
    /// The stream ended.
    PeerClosed,
    /// A line that should name a request id did not.
    Framing,
    /// A response named a request that this channel never issued or already answered.
    UnknownRequest,
    /// Writing to the stream failed.
    WriteFailed,
}

/// Where a channel stands in its life cycle.
#[derive(PartialEq, Eq, Structural, Clone, Copy, Debug)]
pub enum ChannelState {
    Ready,
    Failed(Fault),
    Closed,
}

/// What one line read from the worker amounts to.
pub enum Inbound<W> {
    /// The line named a request; the next line is its payload.
    Awaiting,
    /// The response to a live request: complete `waiter` with `payload`.
    Deliver { request_id: u64, waiter: W, payload: Vec<u8> },
    /// A late response to a canceled request, dropped.
    Discarded,
    /// The channel failed on this line; each waiter completes with `PeerClosed`.
    Failed { fault: Fault, waiters: Vec<(u64, W)> },
    /// The channel is no longer ready; the line is ignored.
    Ignored,
}

/// The abstract state of a channel.
pub ghost struct ChannelView<W> {
    pub state: ChannelState,
    /// Live requests with their waiters, in the order they were issued.
    pub pending: Seq<(u64, W)>,
    /// Canceled requests whose response has not come yet.
    pub canceled: Seq<u64>,
    /// The id the next request gets.
    pub next_id: nat,
    /// The ids of this channel are `first`, `first + step`, `first + 2 * step`, ...
    pub first: nat,
    pub step: nat,
    /// The request whose payload line comes next, if its id line was read.
    pub awaiting: Option<u64>,
    /// Every request issued on this channel, in order: id, action, payload.
    pub sent: Seq<(u64, Seq<u8>, Seq<u8>)>,
}

impl<W> ChannelView<W> {
    pub open spec fn wf(self) -> bool {
        &&& forall|i: int| 0 <= i < self.pending.len() ==> #[trigger] self.pending[i].0 < self.next_id
        &&& forall|i: int, j: int|
            0 <= i < j < self.pending.len() ==> #[trigger] self.pending[i].0 < #[trigger] self.pending[j].0
        &&& forall|i: int| 0 <= i < self.canceled.len() ==> #[trigger] self.canceled[i] < self.next_id
        &&& forall|i: int, j: int|
            0 <= i < j < self.canceled.len() ==> #[trigger] self.canceled[i] != #[trigger] self.canceled[j]
        &&& forall|i: int, j: int|
            0 <= i < self.pending.len() && 0 <= j < self.canceled.len() ==> #[trigger] self.pending[i].0
                != #[trigger] self.canceled[j]
        &&& forall|i: int| 0 <= i < self.sent.len() ==> #[trigger] self.sent[i].0 < self.next_id
        &&& forall|i: int|
            0 <= i < self.sent.len() ==> no_line_feed((#[trigger] self.sent[i]).1) && no_line_feed(
                self.sent[i].2,
            )
        &&& forall|i: int, j: int|
            0 <= i < j < self.sent.len() ==> #[trigger] self.sent[i].0 < #[trigger] self.sent[j].0
        &&& self.next_id <= u64::MAX
        &&& 1 <= self.step <= u64::MAX
        &&& self.first < self.step
        &&& self.next_id % self.step == self.first
        &&& forall|i: int| 0 <= i < self.sent.len() ==> (#[trigger] self.sent[i]).0 as nat % self.step == self.first
        &&& self.state != ChannelState::Ready ==> self.pending.len() == 0 && self.awaiting is None
    }

    pub open spec fn is_ready(self) -> bool {
        self.state == ChannelState::Ready
    }

    pub open spec fn has_pending(self, id: u64) -> bool {
        exists|i: int| 0 <= i < self.pending.len() && #[trigger] self.pending[i].0 == id
    }

    pub open spec fn has_canceled(self, id: u64) -> bool {
        exists|i: int| 0 <= i < self.canceled.len() && #[trigger] self.canceled[i] == id
    }

    /// The error that `send` reports, if any.
    pub open spec fn send_error(self, action: Seq<u8>, payload: Seq<u8>) -> Option<FarmError> {
        if !no_line_feed(action) || !no_line_feed(payload) {
            Some(FarmError::Serialization)
        } else if !self.is_ready() {
            Some(FarmError::ChannelClosed)
        } else if !self.has_ids_left() {
            Some(FarmError::IdsExhausted)
        } else {
            None
        }
    }

    /// Whether the channel can issue one more request id.
    pub open spec fn has_ids_left(self) -> bool {
        self.next_id + self.step <= u64::MAX
    }

    /// The channel after a request with `waiter` has been issued.
    pub open spec fn issue(self, action: Seq<u8>, payload: Seq<u8>, waiter: W) -> ChannelView<W> {
        ChannelView {
            pending: self.pending.push((self.next_id as u64, waiter)),
            next_id: self.next_id + self.step,
            sent: self.sent.push((self.next_id as u64, action, payload)),
            ..self
        }
    }

    /// The channel after it failed: no waiter stays.
    pub open spec fn fail(self, fault: Fault) -> ChannelView<W> {
        ChannelView {
            state: ChannelState::Failed(fault),
            pending: Seq::empty(),
            awaiting: None,
            ..self
        }
    }

    /// The channel after it was closed: a ready channel becomes closed and
    /// keeps no waiter; a failed or closed channel stays as it is.
    pub open spec fn close(self) -> ChannelView<W> {
        if self.is_ready() {
            ChannelView { state: ChannelState::Closed, pending: Seq::empty(), awaiting: None, ..self }
        } else {
            self
        }
    }
}

/// How a channel's state and result relate to the old state after `send`.
pub open spec fn send_post<W>(
    old: ChannelView<W>,
    new: ChannelView<W>,
    action: Seq<u8>,
    payload: Seq<u8>,
    waiter: W,
    r: Result<(u64, Seq<u8>), FarmError>,
) -> bool {
    match old.send_error(action, payload) {
        Some(e) => r == Err::<(u64, Seq<u8>), FarmError>(e) && new == old,
        None => {
            &&& r is Ok
            &&& r->Ok_0.0 == old.next_id
            &&& r->Ok_0.1 == request_frame(decimal(old.next_id), action, payload)
            &&& new == old.issue(action, payload, waiter)
        },
    }
}

/// How a channel's state and result relate to the old state after one line was read.
pub open spec fn line_post<W>(
    old: ChannelView<W>,
    new: ChannelView<W>,
    line: Seq<u8>,
    r: Inbound<W>,
) -> bool {
    if !old.is_ready() {
        r is Ignored && new == old
    } else {
        match old.awaiting {
            None => if is_id_text(line) {
                &&& r is Awaiting
                &&& new == ChannelView { awaiting: Some(digits_value(line) as u64), ..old }
            } else {
                &&& r matches Inbound::Failed { fault, waiters } && fault == Fault::Framing
                    && waiters@ == old.pending
                &&& new == old.fail(Fault::Framing)
            },
            Some(id) => if old.has_pending(id) {
                &&& r matches Inbound::Deliver { request_id, waiter, payload } && request_id == id
                    && payload@ == line && forall|i: int|
                    0 <= i < old.pending.len() && #[trigger] old.pending[i].0 == id ==> {
                        &&& waiter == old.pending[i].1
                        &&& new == ChannelView { pending: old.pending.remove(i), awaiting: None, ..old }
                    }
            } else if old.has_canceled(id) {
                &&& r is Discarded
                &&& forall|i: int|
                    0 <= i < old.canceled.len() && #[trigger] old.canceled[i] == id ==> new
                        == ChannelView { canceled: old.canceled.remove(i), awaiting: None, ..old }
            } else {
                &&& r matches Inbound::Failed { fault, waiters } && fault == Fault::UnknownRequest
                    && waiters@ == old.pending
                &&& new == old.fail(Fault::UnknownRequest)
            },
        }
    }
}

/// How a channel's state and result relate to the old state after `cancel`.
pub open spec fn cancel_post<W>(old: ChannelView<W>, new: ChannelView<W>, id: u64, r: Option<W>) -> bool {
    if old.has_pending(id) {
        &&& r is Some
        &&& forall|i: int|
            0 <= i < old.pending.len() && #[trigger] old.pending[i].0 == id ==> {
                &&& r->Some_0 == old.pending[i].1
                &&& new == ChannelView {
                    pending: old.pending.remove(i),
                    canceled: old.canceled.push(id),
                    ..old
                }
            }
    } else {
        r is None && new == old
    }
}

/// Removing one entry from a table of live requests keeps the ids in
/// increasing order and below `bound`.
pub proof fn lemma_remove_keeps_order<W>(s: Seq<(u64, W)>, i: int, bound: nat)
    requires
        0 <= i < s.len(),
        forall|a: int| 0 <= a < s.len() ==> #[trigger] s[a].0 < bound,
        forall|a: int, b: int| 0 <= a < b < s.len() ==> #[trigger] s[a].0 < #[trigger] s[b].0,
    ensures
        forall|a: int| 0 <= a < s.remove(i).len() ==> #[trigger] s.remove(i)[a].0 < bound,
        forall|a: int, b: int|
            0 <= a < b < s.remove(i).len() ==> #[trigger] s.remove(i)[a].0 < #[trigger] s.remove(
                i,
            )[b].0,
{
    let t = s.remove(i);
    assert forall|a: int| 0 <= a < t.len() implies #[trigger] t[a].0 < bound by {
        if a >= i {
            assert(t[a] == s[a + 1]);
        } else {
            assert(t[a] == s[a]);
        }
    }
    assert forall|a: int, b: int| 0 <= a < b < t.len() implies #[trigger] t[a].0 < #[trigger] t[b].0 by {
        if a >= i {
            assert(s[a + 1].0 < s[b + 1].0);
        } else if b >= i {
            assert(s[a].0 < s[b + 1].0);
        } else {
            assert(s[a].0 < s[b].0);
        }
    }
}

/// One worker's channel.
pub struct WorkerChannel<W> {
    state: ChannelState,
    pending: Vec<(u64, W)>,
    canceled: Vec<u64>,
    next_id: u64,
    first: u64,
    step: u64,
    awaiting: Option<u64>,
    sent: Ghost<Seq<(u64, Seq<u8>, Seq<u8>)>>,
}

impl<W> View for WorkerChannel<W> {
    type V = ChannelView<W>;

    closed spec fn view(&self) -> ChannelView<W> {
        ChannelView {
            state: self.state,
            pending: self.pending@,
            canceled: self.canceled@,
            next_id: self.next_id as nat,
            first: self.first as nat,
            step: self.step as nat,
            awaiting: self.awaiting,
            sent: self.sent@,
        }
    }
}

impl<W> WorkerChannel<W> {
    /// A ready channel with no request issued yet, whose ids are 0, 1, 2, ...
    pub fn new() -> (r: Self)
        ensures
            r@.wf(),
            r@.state == ChannelState::Ready,
            r@.pending.len() == 0,
            r@.canceled.len() == 0,
            r@.next_id == 0,
            r@.first == 0,
            r@.step == 1,
            r@.awaiting is None,
            r@.sent.len() == 0,
    {
        Self::with_ids(0, 1)
    }

    /// A ready channel with no request issued yet, whose ids are `first`,
    /// `first + step`, `first + 2 * step`, ... Channels given the same `step`
    /// and different `first` never share an id.
    pub fn with_ids(first: u64, step: u64) -> (r: Self)
        requires
            first < step,
        ensures
            r@.wf(),
            r@.state == ChannelState::Ready,
            r@.pending.len() == 0,
            r@.canceled.len() == 0,
            r@.next_id == first,
            r@.first == first,
            r@.step == step,
            r@.awaiting is None,
            r@.sent.len() == 0,
    {
        proof {
            vstd::arithmetic::div_mod::lemma_small_mod(first as nat, step as nat);
        }
        WorkerChannel {
            state: ChannelState::Ready,
            pending: Vec::new(),
            canceled: Vec::new(),
            next_id: first,
            first,
            step,
            awaiting: None,
            sent: Ghost(Seq::empty()),
        }
    }

    pub fn state(&self) -> (r: ChannelState)
        ensures
            r == self@.state,
    {
        self.state
    }

    pub fn is_ready(&self) -> (r: bool)
        ensures
            r == self@.is_ready(),
    {
        match self.state {
            ChannelState::Ready => true,
            _ => false,
        }
    }

    /// The id that the next request gets.
    pub fn next_id(&self) -> (r: u64)
        ensures
            r == self@.next_id,
    {
        self.next_id
    }

    /// Whether the channel can issue one more request id.
    pub fn has_ids_left(&self) -> (r: bool)
        requires
            self@.wf(),
        ensures
            r == self@.has_ids_left(),
    {
        self.next_id <= u64::MAX - self.step
    }

    /// The number of live requests.
    pub fn pending_count(&self) -> (r: usize)
        ensures
            r == self@.pending.len(),
    {
        self.pending.len()
    }

    fn find_pending(&self, id: u64) -> (r: Option<usize>)
        requires
            self@.wf(),
        ensures
            match r {
                Some(i) => i < self@.pending.len() && self@.pending[i as int].0 == id && forall|
                    j: int,
                | 0 <= j < self@.pending.len() && #[trigger] self@.pending[j].0 == id ==> j == i,
                None => !self@.has_pending(id),
            },
    {
        let mut i: usize = 0;
        while i < self.pending.len()
            invariant
                0 <= i <= self.pending@.len(),
                self@.wf(),
                forall|j: int| 0 <= j < i ==> #[trigger] self.pending@[j].0 != id,
            decreases self.pending@.len() - i,
        {
            if self.pending[i].0 == id {
                proof {
                    assert forall|j: int|
                        0 <= j < self@.pending.len() && #[trigger] self@.pending[j].0 == id implies j
                        == i by {
                        if j < i {
                        } else if j > i {
                            assert(self@.pending[i as int].0 < self@.pending[j].0);
                        }
                    }
                }
                return Some(i);
            }
            i = i + 1;
        }
        None
    }

    fn find_canceled(&self, id: u64) -> (r: Option<usize>)
        requires
            self@.wf(),
        ensures
            match r {
                Some(i) => i < self@.canceled.len() && self@.canceled[i as int] == id && forall|
                    j: int,
                | 0 <= j < self@.canceled.len() && #[trigger] self@.canceled[j] == id ==> j == i,
                None => !self@.has_canceled(id),
            },
    {
        let mut i: usize = 0;
        while i < self.canceled.len()
            invariant
                0 <= i <= self.canceled@.len(),
                self@.wf(),
                forall|j: int| 0 <= j < i ==> #[trigger] self.canceled@[j] != id,
            decreases self.canceled@.len() - i,
        {
            if self.canceled[i] == id {
                proof {
                    assert forall|j: int|
                        0 <= j < self@.canceled.len() && #[trigger] self@.canceled[j] == id implies j
                        == i by {
                        if j < i {
                        } else if j > i {
                            assert(self@.canceled[i as int] != self@.canceled[j]);
                        }
                    }
                }
                return Some(i);
            }
            i = i + 1;
        }
        None
    }

    /// Hands every live waiter back and leaves none.
    fn take_pending(&mut self) -> (r: Vec<(u64, W)>)
        ensures
            r@ == old(self)@.pending,
            final(self)@ == (ChannelView { pending: Seq::empty(), ..old(self)@ }),
    {
        let mut out: Vec<(u64, W)> = Vec::new();
        std::mem::swap(&mut out, &mut self.pending);
        out
    }

    /// Issues a request: allocates its id, registers `waiter` under it, and
    /// returns the id with the frame to write to the worker.
    pub fn send(&mut self, action: &[u8], payload: &[u8], waiter: W) -> (r: Result<
        (u64, Vec<u8>),
        FarmError,
    >)
        requires
            old(self)@.wf(),
        ensures
            final(self)@.wf(),
            send_post(
                old(self)@,
                final(self)@,
                action@,
                payload@,
                waiter,
                match r {
                    Ok((id, frame)) => Ok((id, frame@)),
                    Err(e) => Err(e),
                },
            ),
    {
        if has_line_feed(action) || has_line_feed(payload) {
            return Err(FarmError::Serialization);
        }
        if !self.is_ready() {
            return Err(FarmError::ChannelClosed);
        }
        if !self.has_ids_left() {
            return Err(FarmError::IdsExhausted);
        }
        let id = self.next_id;
        let frame = write_request_frame(id, action, payload);
        self.pending.push((id, waiter));
        self.next_id = id + self.step;
        self.sent = Ghost(self.sent@.push((id, action@, payload@)));
        proof {
            let o = old(self)@;
            let v = self@;
            assert(v.pending =~= o.pending.push((id, waiter)));
            assert(v.canceled == o.canceled);
            assert(v.sent == o.sent.push((id, action@, payload@)));
            vstd::arithmetic::div_mod::lemma_mod_add_multiples_vanish(id as int, o.step as int);
            assert forall|a: int| 0 <= a < v.sent.len() implies (#[trigger] v.sent[a]).0 as nat % v.step
                == v.first by {
                if a < o.sent.len() {
                    assert(v.sent[a] == o.sent[a]);
                }
            }
            assert forall|a: int, b: int|
                0 <= a < b < v.pending.len() implies #[trigger] v.pending[a].0
                < #[trigger] v.pending[b].0 by {
                if b == o.pending.len() {
                    assert(o.pending[a].0 < o.next_id);
                } else {
                    assert(o.pending[a].0 < o.pending[b].0);
                }
            }
            assert forall|a: int, b: int|
                0 <= a < v.pending.len() && 0 <= b < v.canceled.len() implies #[trigger] v.pending[a].0
                != #[trigger] v.canceled[b] by {
                if a == o.pending.len() {
                    assert(o.canceled[b] < o.next_id);
                } else {
                    assert(o.pending[a].0 != o.canceled[b]);
                }
            }
            assert forall|a: int| 0 <= a < v.sent.len() implies no_line_feed((#[trigger] v.sent[a]).1)
                && no_line_feed(v.sent[a].2) by {
                if a < o.sent.len() {
                    assert(v.sent[a] == o.sent[a]);
                }
            }
            assert forall|a: int, b: int|
                0 <= a < b < v.sent.len() implies #[trigger] v.sent[a].0 < #[trigger] v.sent[b].0 by {
                if b == o.sent.len() {
                    assert(o.sent[a].0 < o.next_id);
                } else {
                    assert(o.sent[a].0 < o.sent[b].0);
                }
            }
        }
        Ok((id, frame))
    }

    /// Takes one line read from the worker: an id line, then a payload line.
    pub fn receive_line(&mut self, line: &[u8]) -> (r: Inbound<W>)
        requires
            old(self)@.wf(),
        ensures
            final(self)@.wf(),
            line_post(old(self)@, final(self)@, line@, r),
    {
        if !self.is_ready() {
            return Inbound::Ignored;
        }
        match self.awaiting {
            None => {
                match parse_request_id(line) {
                    Some(id) => {
                        self.awaiting = Some(id);
                        assert(self@.pending == old(self)@.pending);
                        assert(self@.canceled == old(self)@.canceled);
                        assert(self@.sent == old(self)@.sent);
                        Inbound::Awaiting
                    },
                    None => {
                        let waiters = self.take_pending();
                        self.state = ChannelState::Failed(Fault::Framing);
                        assert(self@.canceled == old(self)@.canceled);
                        assert(self@.sent == old(self)@.sent);
                        Inbound::Failed { fault: Fault::Framing, waiters }
                    },
                }
            },
            Some(id) => {
                match self.find_pending(id) {
                    Some(i) => {
                        let ghost before = self@;
                        let (request_id, waiter) = self.pending.remove(i);
                        self.awaiting = None;
                        assert(self@.canceled == old(self)@.canceled);
                        assert(self@.sent == old(self)@.sent);
                        proof {
                            lemma_remove_keeps_order(before.pending, i as int, before.next_id);
                            assert(self@.pending == before.pending.remove(i as int));
                        }
                        Inbound::Deliver { request_id, waiter, payload: copy_bytes(line) }
                    },
                    None => {
                        match self.find_canceled(id) {
                            Some(j) => {
                                let ghost before = self@;
                                self.canceled.remove(j);
                                self.awaiting = None;
                                assert(self@.pending == old(self)@.pending);
                                assert(self@.sent == old(self)@.sent);
                                proof {
                                    assert forall|a: int| 0 <= a < self@.canceled.len() implies #[trigger] self@.canceled[a]
                                        < self@.next_id by {
                                        if a >= j {
                                            assert(before.canceled[a + 1] < before.next_id);
                                        } else {
                                            assert(before.canceled[a] < before.next_id);
                                        }
                                    }
                                }
                                Inbound::Discarded
                            },
                            None => {
                                let waiters = self.take_pending();
                                self.state = ChannelState::Failed(Fault::UnknownRequest);
                                self.awaiting = None;
                                assert(self@.canceled == old(self)@.canceled);
                                assert(self@.sent == old(self)@.sent);
                                Inbound::Failed { fault: Fault::UnknownRequest, waiters }
                            },
                        }
                    },
                }
            },
        }
    }

    /// Withdraws a live request: its waiter is handed back, and a response that
    /// still comes for it is dropped rather than taken for an unknown one.
    pub fn cancel(&mut self, id: u64) -> (r: Option<W>)
        requires
            old(self)@.wf(),
        ensures
            final(self)@.wf(),
            cancel_post(old(self)@, final(self)@, id, r),
    {
        match self.find_pending(id) {
            None => None,
            Some(i) => {
                let ghost before = self@;
                let (_, waiter) = self.pending.remove(i);
                self.canceled.push(id);
                assert(self@.sent == old(self)@.sent);
                proof {
                    let v = self@;
                    assert(v.canceled == before.canceled.push(id));
                    lemma_remove_keeps_order(before.pending, i as int, before.next_id);
                    assert forall|a: int| 0 <= a < v.canceled.len() implies #[trigger] v.canceled[a]
                        < v.next_id by {
                        if a < before.canceled.len() {
                            assert(before.canceled[a] < before.next_id);
                        }
                    }
                    assert forall|a: int, b: int|
                        0 <= a < b < v.canceled.len() implies #[trigger] v.canceled[a]
                        != #[trigger] v.canceled[b] by {
                        if b == before.canceled.len() {
                            assert(before.pending[i as int].0 != before.canceled[a]);
                        } else {
                            assert(before.canceled[a] != before.canceled[b]);
                        }
                    }
                    assert forall|a: int, b: int|
                        0 <= a < v.pending.len() && 0 <= b < v.canceled.len() implies #[trigger] v.pending[a].0
                        != #[trigger] v.canceled[b] by {
                        let k = if a >= i { a + 1 } else { a };
                        assert(v.pending[a] == before.pending[k]);
                        if b == before.canceled.len() {
                            if k < i {
                                assert(before.pending[k].0 < before.pending[i as int].0);
                            } else {
                                assert(before.pending[i as int].0 < before.pending[k].0);
                            }
                        } else {
                            assert(before.pending[k].0 != before.canceled[b]);
                        }
                    }
                }
                Some(waiter)
            },
        }
    }

    fn fail_with(&mut self, fault: Fault) -> (r: Vec<(u64, W)>)
        requires
            old(self)@.wf(),
        ensures
            final(self)@.wf(),
            old(self)@.is_ready() ==> r@ == old(self)@.pending && final(self)@ == old(self)@.fail(
                fault,
            ),
            !old(self)@.is_ready() ==> r@.len() == 0 && final(self)@ == old(self)@,
    {
        if !self.is_ready() {
            return Vec::new();
        }
        let waiters = self.take_pending();
        self.state = ChannelState::Failed(fault);
        self.awaiting = None;
        assert(self@.canceled == old(self)@.canceled);
        assert(self@.sent == old(self)@.sent);
        assert(self@ == old(self)@.fail(fault));
        waiters
    }

    /// The worker's stream ended: a ready channel fails, and every live
    /// waiter is handed back to complete with `PeerClosed`.
    pub fn end_of_stream(&mut self) -> (r: Vec<(u64, W)>)
        requires
            old(self)@.wf(),
        ensures
            final(self)@.wf(),
            old(self)@.is_ready() ==> r@ == old(self)@.pending && final(self)@ == old(self)@.fail(
                Fault::PeerClosed,
            ),
            !old(self)@.is_ready() ==> r@.len() == 0 && final(self)@ == old(self)@,
    {
        self.fail_with(Fault::PeerClosed)
    }

    /// Writing to the worker failed: a ready channel fails, and every live
    /// waiter is handed back to complete with `PeerClosed`.
    pub fn write_failed(&mut self) -> (r: Vec<(u64, W)>)
        requires
            old(self)@.wf(),
        ensures
            final(self)@.wf(),
            old(self)@.is_ready() ==> r@ == old(self)@.pending && final(self)@ == old(self)@.fail(
                Fault::WriteFailed,
            ),
            !old(self)@.is_ready() ==> r@.len() == 0 && final(self)@ == old(self)@,
    {
        self.fail_with(Fault::WriteFailed)
    }

    /// Closes a ready channel for good; every live waiter is handed back to
    /// complete with `Shutdown`. A failed channel keeps its fault and has no
    /// waiter; closing twice hands back nothing more.
    pub fn close(&mut self) -> (r: Vec<(u64, W)>)
        requires
            old(self)@.wf(),
        ensures
            final(self)@.wf(),
            r@ == old(self)@.pending,
            final(self)@ == old(self)@.close(),
    {
        if !self.is_ready() {
            return Vec::new();
        }
        let waiters = self.take_pending();
        self.state = ChannelState::Closed;
        self.awaiting = None;
        assert(self@.canceled == old(self)@.canceled);
        assert(self@.sent == old(self)@.sent);
        assert(self@ == old(self)@.close());
        waiters
    }
}

} // verus!
