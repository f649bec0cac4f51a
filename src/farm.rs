//! The worker farm: one channel per worker, round-robin dispatch that skips
//! failed workers, broadcast to every worker, and shutdown.
//!
//! Like the channels it owns, the farm does no I/O: it hands back the frames
//! to write and the waiters to complete, and takes in what the workers sent.
use vstd::prelude::*;
use crate::channel::{
    cancel_post,
    Fault,
    line_post,
    send_post,
    ChannelState,
    ChannelView,
    Inbound,
    WorkerChannel,
};
use crate::error::FarmError;
use crate::frame::{has_line_feed, no_line_feed};

verus! {

/// A request handed to one worker: the frame to write to it, and the id that
/// its response will carry.
pub struct Dispatch {
    pub worker: usize,
    pub request_id: u64,
    pub frame: Vec<u8>,
}

/// One worker's part of a broadcast.
pub enum BroadcastSlot<W> {
    /// The request was issued: write `frame` to the worker.
    Sent { request_id: u64, frame: Vec<u8> },
    /// The worker could not take the request; its waiter is handed back.
    Refused { error: FarmError, waiter: W },
}

/// What a broadcast slot says of the worker's `send`.
pub open spec fn slot_result<W>(s: BroadcastSlot<W>) -> Result<(u64, Seq<u8>), FarmError> {
    match s {
        BroadcastSlot::Sent { request_id, frame } => Ok((request_id, frame@)),
        BroadcastSlot::Refused { error, waiter } => Err(error),
    }
}

/// The abstract state of a farm.
pub ghost struct FarmView<W> {
    pub workers: Seq<ChannelView<W>>,
    /// The round-robin cursor: the worker tried first by the next `send_one`.
    pub next_worker: nat,
    pub shut_down: bool,
}

/// How far `to` lies after `from` going round `n` workers.
pub open spec fn cyclic_distance(from: int, to: int, n: int) -> int {
    (to - from + n) % n
}

impl<W> FarmView<W> {
    pub open spec fn wf(self) -> bool {
        &&& (self.workers.len() == 0 ==> self.next_worker == 0)
        &&& (self.workers.len() > 0 ==> self.next_worker < self.workers.len())
        &&& self.workers.len() <= usize::MAX
        &&& forall|i: int| 0 <= i < self.workers.len() ==> (#[trigger] self.workers[i]).wf()
        &&& forall|i: int|
            0 <= i < self.workers.len() ==> (#[trigger] self.workers[i]).first == i
                && self.workers[i].step == self.workers.len()
        &&& self.shut_down ==> forall|i: int|
            0 <= i < self.workers.len() ==> !(#[trigger] self.workers[i]).is_ready()
    }

    pub open spec fn ready(self, w: int) -> bool {
        0 <= w < self.workers.len() && self.workers[w].is_ready()
    }

    pub open spec fn some_ready(self) -> bool {
        exists|w: int| #[trigger] self.ready(w)
    }

    pub open spec fn all_ready(self) -> bool {
        forall|w: int| 0 <= w < self.workers.len() ==> #[trigger] self.ready(w)
    }

    /// `w` is the worker that round robin picks next: the first ready worker
    /// at or after the cursor, going round.
    pub open spec fn is_next_pick(self, w: int) -> bool {
        &&& self.ready(w)
        &&& forall|j: int|
            0 <= j < cyclic_distance(self.next_worker as int, w, self.workers.len() as int)
                ==> !#[trigger] self.ready((self.next_worker + j) % (self.workers.len() as int))
    }

    /// The error that `send_one` reports before it picks a worker, if any.
    pub open spec fn send_one_error(self, action: Seq<u8>, payload: Seq<u8>) -> Option<FarmError> {
        if self.shut_down {
            Some(FarmError::Shutdown)
        } else if !no_line_feed(action) || !no_line_feed(payload) {
            Some(FarmError::Serialization)
        } else if !self.some_ready() {
            Some(FarmError::NoHealthyWorker)
        } else {
            None
        }
    }

    /// The error that `send_all` reports before it sends anything, if any.
    pub open spec fn send_all_error(self, action: Seq<u8>, payload: Seq<u8>) -> Option<FarmError> {
        if self.shut_down {
            Some(FarmError::Shutdown)
        } else if !no_line_feed(action) || !no_line_feed(payload) {
            Some(FarmError::Serialization)
        } else {
            None
        }
    }
}

/// One round-robin step: `w` was picked from `f0`, leaving `f1` with its
/// cursor just past `w`.
pub open spec fn round_robin_step<W>(f0: FarmView<W>, w: int, f1: FarmView<W>) -> bool {
    &&& f0.is_next_pick(w)
    &&& f1.workers.len() == f0.workers.len()
    &&& f1.next_worker == (w + 1) % (f0.workers.len() as int)
}

/// How a farm's state and result relate to the old state after `send_one`.
pub open spec fn send_one_post<W>(
    old: FarmView<W>,
    new: FarmView<W>,
    action: Seq<u8>,
    payload: Seq<u8>,
    waiter: W,
    r: Result<(int, u64, Seq<u8>), FarmError>,
) -> bool {
    match old.send_one_error(action, payload) {
        Some(e) => r == Err::<(int, u64, Seq<u8>), FarmError>(e) && new == old,
        None => {
            &&& r is Ok ==> {
                let (w, id, frame) = r->Ok_0;
                &&& round_robin_step(old, w, new)
                &&& send_post(old.workers[w], new.workers[w], action, payload, waiter, Ok((id, frame)))
                &&& new.workers == old.workers.update(w, new.workers[w])
                &&& new.shut_down == old.shut_down
            }
            &&& r is Err ==> r == Err::<(int, u64, Seq<u8>), FarmError>(FarmError::IdsExhausted)
                && new == old
            &&& forall|w: int| #[trigger]
                old.is_next_pick(w) ==> (r is Ok <==> old.workers[w].has_ids_left())
        },
    }
}

/// How a farm's state and result relate to the old state after `send_all`.
pub open spec fn send_all_post<W>(
    old: FarmView<W>,
    new: FarmView<W>,
    action: Seq<u8>,
    payload: Seq<u8>,
    waiters: Seq<W>,
    r: Result<Seq<BroadcastSlot<W>>, FarmError>,
) -> bool {
    match old.send_all_error(action, payload) {
        Some(e) => r == Err::<Seq<BroadcastSlot<W>>, FarmError>(e) && new == old,
        None => {
            &&& r is Ok
            &&& r->Ok_0.len() == old.workers.len()
            &&& new.workers.len() == old.workers.len()
            &&& new.next_worker == old.next_worker
            &&& new.shut_down == old.shut_down
            &&& forall|i: int|
                0 <= i < old.workers.len() ==> send_post(
                    old.workers[i],
                    #[trigger] new.workers[i],
                    action,
                    payload,
                    waiters[i],
                    slot_result(r->Ok_0[i]),
                )
        },
    }
}

/// The ordinals at which `ok` is false, in increasing order.
pub open spec fn failed_indices(ok: Seq<bool>) -> Seq<usize>
    decreases ok.len(),
{
    if ok.len() == 0 {
        Seq::empty()
    } else if ok.last() {
        failed_indices(ok.drop_last())
    } else {
        failed_indices(ok.drop_last()).push((ok.len() - 1) as usize)
    }
}

/// How the farm's workers relate after an operation on worker `w` alone.
pub open spec fn only_worker_changed<W>(old: FarmView<W>, new: FarmView<W>, w: int) -> bool {
    &&& new.workers.len() == old.workers.len()
    &&& new.workers == old.workers.update(w, new.workers[w])
    &&& new.next_worker == old.next_worker
    &&& new.shut_down == old.shut_down
}

/// Reduction modulo `n` of a number below two rounds.
pub proof fn lemma_mod_within_two_rounds(x: int, n: int)
    requires
        0 < n,
        0 <= x < 2 * n,
    ensures
        x % n == (if x < n { x } else { x - n }),
{
    if x < n {
        vstd::arithmetic::div_mod::lemma_small_mod(x as nat, n as nat);
    } else {
        vstd::arithmetic::div_mod::lemma_small_mod((x - n) as nat, n as nat);
        vstd::arithmetic::div_mod::lemma_mod_add_multiples_vanish(x - n, n);
    }
}

/// Going round from `from`, the worker `k` steps on lies at distance `k`.
pub proof fn lemma_cyclic_step(from: int, k: int, n: int)
    requires
        0 <= from < n,
        0 <= k < n,
    ensures
        cyclic_distance(from, (from + k) % n, n) == k,
{
    lemma_mod_within_two_rounds(from + k, n);
    let w = (from + k) % n;
    lemma_mod_within_two_rounds(w - from + n, n);
}

/// Every worker lies within one round of any cursor.
pub proof fn lemma_cyclic_reach(from: int, w: int, n: int)
    requires
        0 <= from < n,
        0 <= w < n,
    ensures
        0 <= cyclic_distance(from, w, n) < n,
        (from + cyclic_distance(from, w, n)) % n == w,
{
    lemma_mod_within_two_rounds(w - from + n, n);
    let d = cyclic_distance(from, w, n);
    lemma_mod_within_two_rounds(from + d, n);
}

/// At most one worker is the next round-robin pick.
pub proof fn lemma_pick_unique<W>(f: FarmView<W>, a: int, b: int)
    requires
        f.wf(),
        f.is_next_pick(a),
        f.is_next_pick(b),
    ensures
        a == b,
{
    let n = f.workers.len() as int;
    let c = f.next_worker as int;
    lemma_cyclic_reach(c, a, n);
    lemma_cyclic_reach(c, b, n);
    let da = cyclic_distance(c, a, n);
    let db = cyclic_distance(c, b, n);
    if da < db {
        assert(!f.ready((c + da) % n));
    } else if db < da {
        assert(!f.ready((c + db) % n));
    }
}

/// The farm.
pub struct Farm<W> {
    workers: Vec<WorkerChannel<W>>,
    next_worker: usize,
    shut_down: bool,
}

impl<W> View for Farm<W> {
    type V = FarmView<W>;

    closed spec fn view(&self) -> FarmView<W> {
        FarmView {
            workers: self.workers@.map_values(|c: WorkerChannel<W>| c@),
            next_worker: self.next_worker as nat,
            shut_down: self.shut_down,
        }
    }
}

impl<W> Farm<W> {
    /// A farm of `worker_count` ready workers, none of which has a request yet.
    /// Worker `i` issues the ids `i`, `i + worker_count`, `i + 2 * worker_count`,
    /// ..., so no two requests of the farm share an id.
    pub fn new(worker_count: usize) -> (r: Self)
        ensures
            r@.wf(),
            r@.workers.len() == worker_count,
            r@.next_worker == 0,
            !r@.shut_down,
            forall|i: int|
                0 <= i < worker_count ==> {
                    &&& (#[trigger] r@.workers[i]).is_ready()
                    &&& r@.workers[i].pending.len() == 0
                    &&& r@.workers[i].canceled.len() == 0
                    &&& r@.workers[i].next_id == i
                    &&& r@.workers[i].first == i
                    &&& r@.workers[i].step == worker_count
                    &&& r@.workers[i].awaiting is None
                    &&& r@.workers[i].sent.len() == 0
                },
    {
        let mut workers: Vec<WorkerChannel<W>> = Vec::new();
        let mut i: usize = 0;
        while i < worker_count
            invariant
                0 <= i <= worker_count,
                workers@.len() == i,
                forall|k: int|
                    0 <= k < i ==> {
                        &&& (#[trigger] workers@[k])@.wf()
                        &&& workers@[k]@.is_ready()
                        &&& workers@[k]@.pending.len() == 0
                        &&& workers@[k]@.canceled.len() == 0
                        &&& workers@[k]@.next_id == k
                        &&& workers@[k]@.first == k
                        &&& workers@[k]@.step == worker_count
                        &&& workers@[k]@.awaiting is None
                        &&& workers@[k]@.sent.len() == 0
                    },
            decreases worker_count - i,
        {
            workers.push(WorkerChannel::with_ids(i as u64, worker_count as u64));
            i = i + 1;
        }
        Farm { workers, next_worker: 0, shut_down: false }
    }

    /// The view of a farm in which only worker `w`'s channel was replaced.
    proof fn lemma_one_worker_changed(old: Farm<W>, new: Farm<W>, w: int)
        requires
            0 <= w < old.workers@.len(),
            new.workers@ == old.workers@.update(w, new.workers@[w]),
            new.next_worker == old.next_worker,
            new.shut_down == old.shut_down,
        ensures
            only_worker_changed(old@, new@, w),
            new@.workers[w] == old@.workers[w] ==> new@ == old@,
    {
        assert(new@.workers =~= old@.workers.update(w, new@.workers[w]));
        if new@.workers[w] == old@.workers[w] {
            assert(new@.workers =~= old@.workers);
        }
    }

    /// The number of workers.
    pub fn worker_count(&self) -> (r: usize)
        ensures
            r == self@.workers.len(),
    {
        self.workers.len()
    }

    /// Where worker `w` stands in its life cycle.
    pub fn worker_state(&self, w: usize) -> (r: ChannelState)
        requires
            w < self@.workers.len(),
        ensures
            r == self@.workers[w as int].state,
    {
        self.workers[w].state()
    }

    /// Whether worker `w` is ready to take requests.
    pub fn is_ready(&self, w: usize) -> (r: bool)
        requires
            w < self@.workers.len(),
        ensures
            r == self@.ready(w as int),
    {
        self.workers[w].is_ready()
    }

    /// Sends one request to the next ready worker in round-robin order, and
    /// moves the cursor just past it.
    pub fn send_one(&mut self, action: &[u8], payload: &[u8], waiter: W) -> (r: Result<
        Dispatch,
        FarmError,
    >)
        requires
            old(self)@.wf(),
        ensures
            final(self)@.wf(),
            send_one_post(
                old(self)@,
                final(self)@,
                action@,
                payload@,
                waiter,
                match r {
                    Ok(d) => Ok((d.worker as int, d.request_id, d.frame@)),
                    Err(e) => Err(e),
                },
            ),
    {
        if self.shut_down {
            return Err(FarmError::Shutdown);
        }
        if has_line_feed(action) || has_line_feed(payload) {
            return Err(FarmError::Serialization);
        }
        let n = self.workers.len();
        let ghost f = self@;
        let mut k: usize = 0;
        let mut found: Option<usize> = None;
        while k < n
            invariant
                self@ == f,
                f.wf(),
                n == f.workers.len(),
                0 <= k <= n,
                forall|j: int| 0 <= j < k ==> !#[trigger] f.ready((f.next_worker + j) % (n as int)),
                found is Some ==> {
                    let w = found->Some_0 as int;
                    &&& k < n
                    &&& w == (f.next_worker + k) % (n as int)
                    &&& f.ready(w)
                },
            ensures
                found is None ==> k >= n,
            decreases n - k + (if found is Some { 0int } else { 1int }),
        {
            let w: usize = if k < n - self.next_worker {
                self.next_worker + k
            } else {
                k - (n - self.next_worker)
            };
            proof {
                lemma_mod_within_two_rounds(f.next_worker + k, n as int);
            }
            if self.workers[w].is_ready() {
                found = Some(w);
                break;
            }
            k = k + 1;
        }
        match found {
            None => {
                proof {
                    assert forall|w: int| !#[trigger] f.ready(w) by {
                        if 0 <= w < n {
                            lemma_cyclic_reach(f.next_worker as int, w, n as int);
                            let d = cyclic_distance(f.next_worker as int, w, n as int);
                            assert(!f.ready((f.next_worker + d) % (n as int)));
                        }
                    }
                }
                Err(FarmError::NoHealthyWorker)
            },
            Some(w) => {
                proof {
                    lemma_cyclic_step(f.next_worker as int, k as int, n as int);
                    assert(f.is_next_pick(w as int));
                    assert forall|v: int| #[trigger] f.is_next_pick(v) implies v == w by {
                        lemma_pick_unique(f, v, w as int);
                    }
                }
                let res = self.workers[w].send(action, payload, waiter);
                proof {
                    assert(self.workers@ == old(self).workers@.update(w as int, self.workers@[w as int]));
                    assert(self@.workers =~= f.workers.update(w as int, self@.workers[w as int]));
                }
                match res {
                    Ok((request_id, frame)) => {
                        self.next_worker = if w + 1 == n {
                            0
                        } else {
                            w + 1
                        };
                        proof {
                            lemma_mod_within_two_rounds(w + 1, n as int);
                        }
                        Ok(Dispatch { worker: w, request_id, frame })
                    },
                    Err(e) => {
                        assert(self@.workers =~= f.workers);
                        Err(e)
                    },
                }
            },
        }
    }

    /// Sends one request to every worker, in ordinal order. A worker that
    /// cannot take it gets a refused slot, which hands its waiter back.
    pub fn send_all(&mut self, action: &[u8], payload: &[u8], waiters: Vec<W>) -> (r: Result<
        Vec<BroadcastSlot<W>>,
        FarmError,
    >)
        requires
            old(self)@.wf(),
            waiters@.len() == old(self)@.workers.len(),
        ensures
            final(self)@.wf(),
            send_all_post(
                old(self)@,
                final(self)@,
                action@,
                payload@,
                waiters@,
                match r {
                    Ok(v) => Ok(v@),
                    Err(e) => Err(e),
                },
            ),
    {
        if self.shut_down {
            return Err(FarmError::Shutdown);
        }
        if has_line_feed(action) || has_line_feed(payload) {
            return Err(FarmError::Serialization);
        }
        let n = self.workers.len();
        let ghost f = self@;
        let ghost ws = waiters@;
        let mut waiters = waiters;
        let mut slots: Vec<BroadcastSlot<W>> = Vec::new();
        let mut i: usize = 0;
        while i < n
            invariant
                f.wf(),
                !f.shut_down,
                no_line_feed(action@),
                no_line_feed(payload@),
                n == f.workers.len(),
                ws.len() == n,
                0 <= i <= n,
                self@.workers.len() == n,
                self@.next_worker == f.next_worker,
                self@.shut_down == f.shut_down,
                waiters@ == ws.skip(i as int),
                slots@.len() == i,
                forall|k: int|
                    0 <= k < i ==> send_post(
                        f.workers[k],
                        #[trigger] self@.workers[k],
                        action@,
                        payload@,
                        ws[k],
                        slot_result(slots@[k]),
                    ),
                forall|k: int| 0 <= k < n ==> (#[trigger] self@.workers[k]).wf(),
                forall|k: int| i <= k < n ==> #[trigger] self@.workers[k] == f.workers[k],
            decreases n - i,
        {
            let waiter = waiters.remove(0);
            assert(waiters@ =~= ws.skip(i as int + 1));
            let ghost before = self@;
            assert(self.workers@[i as int]@ == self@.workers[i as int]);
            let slot = if !self.workers[i].is_ready() {
                BroadcastSlot::Refused { error: FarmError::ChannelClosed, waiter }
            } else if !self.workers[i].has_ids_left() {
                BroadcastSlot::Refused { error: FarmError::IdsExhausted, waiter }
            } else {
                match self.workers[i].send(action, payload, waiter) {
                    Ok((request_id, frame)) => BroadcastSlot::Sent { request_id, frame },
                    // Never taken: the worker is ready and has ids left.
                    Err(e) => {
                        return Err(e);
                    },
                }
            };
            proof {
                assert(self@.workers =~= before.workers.update(i as int, self@.workers[i as int]));
            }
            slots.push(slot);
            i = i + 1;
        }
        Ok(slots)
    }

    /// Takes one line read from worker `w`.
    pub fn receive_line(&mut self, w: usize, line: &[u8]) -> (r: Inbound<W>)
        requires
            old(self)@.wf(),
            w < old(self)@.workers.len(),
        ensures
            final(self)@.wf(),
            only_worker_changed(old(self)@, final(self)@, w as int),
            line_post(old(self)@.workers[w as int], final(self)@.workers[w as int], line@, r),
    {
        assert(self.workers@[w as int]@ == self@.workers[w as int]);
        let r = self.workers[w].receive_line(line);
        proof {
            Self::lemma_one_worker_changed(*old(self), *self, w as int);
        }
        r
    }

    /// Worker `w`'s stream ended: a ready worker fails, and its live waiters
    /// are handed back to complete with `PeerClosed`.
    pub fn end_of_stream(&mut self, w: usize) -> (r: Vec<(u64, W)>)
        requires
            old(self)@.wf(),
            w < old(self)@.workers.len(),
        ensures
            final(self)@.wf(),
            only_worker_changed(old(self)@, final(self)@, w as int),
            old(self)@.ready(w as int) ==> r@ == old(self)@.workers[w as int].pending
                && final(self)@.workers[w as int] == old(self)@.workers[w as int].fail(
                Fault::PeerClosed,
            ),
            !old(self)@.ready(w as int) ==> r@.len() == 0 && final(self)@ == old(self)@,
    {
        assert(self.workers@[w as int]@ == self@.workers[w as int]);
        let r = self.workers[w].end_of_stream();
        proof {
            Self::lemma_one_worker_changed(*old(self), *self, w as int);
        }
        r
    }

    /// Writing to worker `w` failed: a ready worker fails, and its live
    /// waiters are handed back to complete with `PeerClosed`.
    pub fn write_failed(&mut self, w: usize) -> (r: Vec<(u64, W)>)
        requires
            old(self)@.wf(),
            w < old(self)@.workers.len(),
        ensures
            final(self)@.wf(),
            only_worker_changed(old(self)@, final(self)@, w as int),
            old(self)@.ready(w as int) ==> r@ == old(self)@.workers[w as int].pending
                && final(self)@.workers[w as int] == old(self)@.workers[w as int].fail(
                Fault::WriteFailed,
            ),
            !old(self)@.ready(w as int) ==> r@.len() == 0 && final(self)@ == old(self)@,
    {
        assert(self.workers@[w as int]@ == self@.workers[w as int]);
        let r = self.workers[w].write_failed();
        proof {
            Self::lemma_one_worker_changed(*old(self), *self, w as int);
        }
        r
    }

    /// Withdraws request `id` of worker `w`; see `WorkerChannel::cancel`.
    pub fn cancel(&mut self, w: usize, id: u64) -> (r: Option<W>)
        requires
            old(self)@.wf(),
            w < old(self)@.workers.len(),
        ensures
            final(self)@.wf(),
            only_worker_changed(old(self)@, final(self)@, w as int),
            cancel_post(old(self)@.workers[w as int], final(self)@.workers[w as int], id, r),
    {
        assert(self.workers@[w as int]@ == self@.workers[w as int]);
        let r = self.workers[w].cancel(id);
        proof {
            Self::lemma_one_worker_changed(*old(self), *self, w as int);
        }
        r
    }

    /// Shuts the farm down: every ready worker is closed and a failed one
    /// keeps its fault; every waiter still live is handed back, by worker, to
    /// complete with `Shutdown`. Shutting down twice hands back nothing more.
    pub fn shutdown(&mut self) -> (r: Vec<Vec<(u64, W)>>)
        requires
            old(self)@.wf(),
        ensures
            final(self)@.wf(),
            final(self)@.shut_down,
            final(self)@.next_worker == old(self)@.next_worker,
            final(self)@.workers.len() == old(self)@.workers.len(),
            r@.len() == old(self)@.workers.len(),
            forall|i: int| 0 <= i < r@.len() ==> (#[trigger] r@[i])@ == old(self)@.workers[i].pending,
            forall|i: int|
                0 <= i < r@.len() ==> #[trigger] final(self)@.workers[i] == old(self)@.workers[i].close(),
    {
        let n = self.workers.len();
        let ghost f = self@;
        let mut out: Vec<Vec<(u64, W)>> = Vec::new();
        let mut i: usize = 0;
        while i < n
            invariant
                f.wf(),
                n == f.workers.len(),
                0 <= i <= n,
                self@.workers.len() == n,
                self@.next_worker == f.next_worker,
                self@.shut_down == f.shut_down,
                out@.len() == i,
                forall|k: int|
                    0 <= k < i ==> {
                        &&& (#[trigger] out@[k])@ == f.workers[k].pending
                        &&& self@.workers[k] == f.workers[k].close()
                    },
                forall|k: int| 0 <= k < n ==> (#[trigger] self@.workers[k]).wf(),
                forall|k: int| i <= k < n ==> #[trigger] self@.workers[k] == f.workers[k],
            decreases n - i,
        {
            let ghost before = self@;
            assert(self.workers@[i as int]@ == self@.workers[i as int]);
            let waiters = self.workers[i].close();
            assert(self@.workers =~= before.workers.update(i as int, self@.workers[i as int]));
            assert(waiters@ == f.workers[i as int].pending);
            assert(self@.workers[i as int] == f.workers[i as int].close());
            let ghost out_before = out@;
            out.push(waiters);
            proof {
                assert forall|k: int| 0 <= k < i + 1 implies {
                    &&& (#[trigger] out@[k])@ == f.workers[k].pending
                    &&& self@.workers[k] == f.workers[k].close()
                } by {
                    if k < i {
                        assert(out@[k] == out_before[k]);
                        assert((out_before[k])@ == f.workers[k].pending);
                        assert(self@.workers[k] == before.workers[k]);
                    } else {
                        assert(out@[k] == waiters);
                    }
                }
            }
            i = i + 1;
        }
        let ghost g = self@;
        self.shut_down = true;
        assert(self@.workers == g.workers);
        assert forall|k: int| 0 <= k < n implies !(#[trigger] self@.workers[k]).is_ready() by {
            assert((out@[k])@ == f.workers[k].pending);
        }
        assert forall|k: int| 0 <= k < out@.len() implies (#[trigger] out@[k])@ == old(
            self,
        )@.workers[k].pending by {
            assert((out@[k])@ == f.workers[k].pending);
        }
        assert forall|k: int| 0 <= k < out@.len() implies #[trigger] self@.workers[k] == old(
            self,
        )@.workers[k].close() by {
            assert((out@[k])@ == f.workers[k].pending);
        }
        out
    }
}

/// Folds the outcome of each worker's part of a broadcast into the
/// broadcast's outcome: success when every worker succeeded, else
/// `BroadcastPartial` with the ordinals that failed.
pub fn broadcast_outcome(ok: &Vec<bool>) -> (r: Result<(), FarmError>)
    ensures
        r is Ok <==> forall|i: int| 0 <= i < ok@.len() ==> #[trigger] ok@[i],
        r is Err ==> (r matches Err(FarmError::BroadcastPartial(v)) && v@ == failed_indices(ok@)),
{
    let mut failed: Vec<usize> = Vec::new();
    let mut i: usize = 0;
    while i < ok.len()
        invariant
            0 <= i <= ok@.len(),
            failed@ == failed_indices(ok@.take(i as int)),
            failed@.len() == 0 <==> forall|j: int| 0 <= j < i ==> #[trigger] ok@[j],
        decreases ok@.len() - i,
    {
        assert(ok@.take(i as int + 1).drop_last() =~= ok@.take(i as int));
        if !ok[i] {
            failed.push(i);
        }
        i = i + 1;
    }
    assert(ok@.take(ok@.len() as int) =~= ok@);
    if failed.len() == 0 {
        Ok(())
    } else {
        Err(FarmError::BroadcastPartial(failed))
    }
}

} // verus!
