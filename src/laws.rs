//! Properties that relate several operations of a channel or a farm.
use vstd::prelude::*;
use vstd::arithmetic::div_mod::{lemma_add_mod_noop_right, lemma_mod_bound, lemma_small_mod};
use crate::channel::{cancel_post, line_post, send_post, ChannelView, Inbound};
use crate::farm::{
    cyclic_distance,
    lemma_cyclic_reach,
    lemma_mod_within_two_rounds,
    round_robin_step,
    send_all_post,
    slot_result,
    BroadcastSlot,
    FarmView,
};
use crate::error::FarmError;
use crate::frame::{
    decimal,
    lemma_decimal,
    lemma_id_text_round_trip,
    lemma_request_frame_unambiguous,
    no_line_feed,
    request_frame,
};

verus! {

/// Request ids are unique over a channel's whole life: no two requests that
/// it issued share an id, and none of them has the id the next request gets.
pub proof fn lemma_request_ids_unique<W>(c: ChannelView<W>)
    requires
        c.wf(),
    ensures
        forall|i: int, j: int|
            0 <= i < c.sent.len() && 0 <= j < c.sent.len() && i != j ==> #[trigger] c.sent[i].0
                != #[trigger] c.sent[j].0,
        forall|i: int| 0 <= i < c.sent.len() ==> #[trigger] c.sent[i].0 != c.next_id,
{
    assert forall|i: int, j: int|
        0 <= i < c.sent.len() && 0 <= j < c.sent.len() && i != j implies #[trigger] c.sent[i].0
        != #[trigger] c.sent[j].0 by {
        if i < j {
            assert(c.sent[i].0 < c.sent[j].0);
        } else {
            assert(c.sent[j].0 < c.sent[i].0);
        }
    }
}

/// Request ids are unique over the whole farm: two requests issued by
/// different workers never share an id.
pub proof fn lemma_farm_ids_unique<W>(f: FarmView<W>, v: int, w: int, i: int, j: int)
    requires
        f.wf(),
        0 <= v < f.workers.len(),
        0 <= w < f.workers.len(),
        v != w,
        0 <= i < f.workers[v].sent.len(),
        0 <= j < f.workers[w].sent.len(),
    ensures
        f.workers[v].sent[i].0 != f.workers[w].sent[j].0,
{
    assert(f.workers[v].wf());
    assert(f.workers[w].wf());
    assert(f.workers[v].sent[i].0 as nat % f.workers.len() == v);
    assert(f.workers[w].sent[j].0 as nat % f.workers.len() == w);
}

/// No live request disappears when a line is read from the worker: each one
/// either stays live, or is handed back to the caller, answered with the
/// line as its payload, or to complete with an error when the channel fails.
pub proof fn lemma_line_keeps_every_request<W>(
    old: ChannelView<W>,
    new: ChannelView<W>,
    line: Seq<u8>,
    r: Inbound<W>,
)
    requires
        old.wf(),
        line_post(old, new, line, r),
    ensures
        forall|i: int|
            0 <= i < old.pending.len() ==> {
                ||| new.pending.contains(#[trigger] old.pending[i])
                ||| (r matches Inbound::Deliver { request_id, waiter, payload } && request_id
                    == old.pending[i].0 && waiter == old.pending[i].1 && payload@ == line)
                ||| (r matches Inbound::Failed { fault, waiters } && waiters@.contains(
                    old.pending[i],
                ))
            },
{
    assert forall|i: int| 0 <= i < old.pending.len() implies {
        ||| new.pending.contains(#[trigger] old.pending[i])
        ||| (r matches Inbound::Deliver { request_id, waiter, payload } && request_id
            == old.pending[i].0 && waiter == old.pending[i].1 && payload@ == line)
        ||| (r matches Inbound::Failed { fault, waiters } && waiters@.contains(old.pending[i]))
    } by {
        if r is Failed {
            assert(r->waiters@[i] == old.pending[i]);
        } else if r is Deliver {
            let id = old.awaiting->Some_0;
            if old.pending[i].0 != id {
                let k = choose|k: int| 0 <= k < old.pending.len() && #[trigger] old.pending[k].0 == id;
                assert(new.pending == old.pending.remove(k));
                if i < k {
                    assert(new.pending[i] == old.pending[i]);
                } else {
                    assert(new.pending[i - 1] == old.pending[i]);
                }
            }
        } else {
            assert(new.pending == old.pending);
            assert(new.pending[i] == old.pending[i]);
        }
    }
}

/// A worker that echoes a request's payload hands that payload, unchanged,
/// to the request's own waiter: send a request, then read back the id line
/// and the payload line of the echoed response; the channel stays ready
/// and holds the same live requests as before.
pub proof fn lemma_echo_round_trip<W>(
    c0: ChannelView<W>,
    c1: ChannelView<W>,
    c2: ChannelView<W>,
    c3: ChannelView<W>,
    action: Seq<u8>,
    payload: Seq<u8>,
    waiter: W,
    sent: Result<(u64, Seq<u8>), FarmError>,
    r2: Inbound<W>,
    r3: Inbound<W>,
)
    requires
        c0.wf(),
        c0.awaiting is None,
        c0.send_error(action, payload) is None,
        send_post(c0, c1, action, payload, waiter, sent),
        line_post(c1, c2, decimal(c0.next_id), r2),
        line_post(c2, c3, payload, r3),
    ensures
        sent is Ok,
        r2 is Awaiting,
        r3 matches Inbound::Deliver { request_id, waiter: w, payload: p } && request_id
            == sent->Ok_0.0 && w == waiter && p@ == payload,
        c3.is_ready(),
        c3.pending == c0.pending,
        c3.awaiting is None,
{
    let id = c0.next_id as u64;
    lemma_id_text_round_trip(id);
    assert(c1 == c0.issue(action, payload, waiter));
    assert(c2.awaiting == Some(id));
    let last = c0.pending.len() as int;
    assert(c2.pending[last].0 == id);
    assert(c2.has_pending(id));
    assert forall|i: int| 0 <= i < c2.pending.len() && #[trigger] c2.pending[i].0 == id implies i
        == last by {
        if i < last {
            assert(c0.pending[i].0 < c0.next_id);
        }
    }
    assert(c2.pending.remove(last) =~= c0.pending);
}

/// Canceling a live request never fails the channel: when the canceled
/// request's response comes later, it is dropped and the channel stays ready.
pub proof fn lemma_cancel_safety<W>(
    c0: ChannelView<W>,
    c1: ChannelView<W>,
    c2: ChannelView<W>,
    c3: ChannelView<W>,
    id: u64,
    payload: Seq<u8>,
    canceled: Option<W>,
    r2: Inbound<W>,
    r3: Inbound<W>,
)
    requires
        c0.wf(),
        c0.is_ready(),
        c0.awaiting is None,
        c0.has_pending(id),
        cancel_post(c0, c1, id, canceled),
        line_post(c1, c2, decimal(id as nat), r2),
        line_post(c2, c3, payload, r3),
    ensures
        canceled is Some,
        r2 is Awaiting,
        r3 is Discarded,
        c2.is_ready(),
        c3.is_ready(),
{
    lemma_id_text_round_trip(id);
    let i = choose|i: int| 0 <= i < c0.pending.len() && #[trigger] c0.pending[i].0 == id;
    assert(c1.pending == c0.pending.remove(i));
    assert(c1.canceled == c0.canceled.push(id));
    assert(c2.awaiting == Some(id));
    assert(!c2.has_pending(id)) by {
        assert forall|j: int| 0 <= j < c2.pending.len() implies #[trigger] c2.pending[j].0 != id by {
            if j < i {
                assert(c0.pending[j].0 < c0.pending[i].0);
            } else {
                assert(c0.pending[i].0 < c0.pending[j + 1].0);
            }
        }
    }
    assert(c2.canceled[c0.canceled.len() as int] == id);
    assert(c2.has_canceled(id));
}

/// Two broadcasts in a row reach each worker that was ready as two requests,
/// in order, with the same action and payload.
pub proof fn lemma_broadcast_twice<W>(
    f0: FarmView<W>,
    f1: FarmView<W>,
    f2: FarmView<W>,
    action: Seq<u8>,
    payload: Seq<u8>,
    waiters1: Seq<W>,
    waiters2: Seq<W>,
    r1: Result<Seq<BroadcastSlot<W>>, FarmError>,
    r2: Result<Seq<BroadcastSlot<W>>, FarmError>,
    w: int,
)
    requires
        f0.send_all_error(action, payload) is None,
        send_all_post(f0, f1, action, payload, waiters1, r1),
        send_all_post(f1, f2, action, payload, waiters2, r2),
        f0.ready(w),
        f0.workers[w].next_id + 2 * f0.workers[w].step <= u64::MAX,
    ensures
        r1 is Ok,
        r2 is Ok,
        r1->Ok_0[w] is Sent,
        r2->Ok_0[w] is Sent,
        f2.workers[w].sent == f0.workers[w].sent.push(
            (f0.workers[w].next_id as u64, action, payload),
        ).push(((f0.workers[w].next_id + f0.workers[w].step) as u64, action, payload)),
{
    assert(send_post(f0.workers[w], f1.workers[w], action, payload, waiters1[w], slot_result(r1->Ok_0[w])));
    assert(f1.send_all_error(action, payload) is None);
    assert(send_post(f1.workers[w], f2.workers[w], action, payload, waiters2[w], slot_result(r2->Ok_0[w])));
}

/// Successive round-robin picks over a farm whose workers all stay ready go
/// round the workers in ordinal order from the cursor.
pub proof fn lemma_round_robin_in_order<W>(fs: Seq<FarmView<W>>, picks: Seq<int>, k: int)
    requires
        fs.len() == picks.len() + 1,
        fs[0].wf(),
        fs[0].workers.len() > 0,
        forall|i: int|
            0 <= i < picks.len() ==> #[trigger] fs[i].all_ready() && round_robin_step(
                fs[i],
                picks[i],
                fs[i + 1],
            ),
        0 <= k < fs.len(),
    ensures
        fs[k].workers.len() == fs[0].workers.len(),
        fs[k].next_worker == (fs[0].next_worker + k) % (fs[0].workers.len() as int),
        k < picks.len() ==> picks[k] == fs[k].next_worker,
    decreases k,
{
    let n = fs[0].workers.len() as int;
    let c = fs[0].next_worker as int;
    if k == 0 {
        lemma_small_mod(c as nat, n as nat);
    } else {
        lemma_round_robin_in_order(fs, picks, k - 1);
        assert(fs[k - 1].all_ready());
        lemma_mod_bound(c + k - 1, n);
        lemma_add_mod_noop_right(1, c + k - 1, n);
        assert(fs[k].next_worker == (c + k) % n);
    }
    if k < picks.len() {
        let p = picks[k];
        assert(fs[k].all_ready());
        assert(round_robin_step(fs[k], p, fs[k + 1]));
        lemma_mod_bound(c + k, n);
        let cur = fs[k].next_worker as int;
        assert(fs[k].ready(cur));
        lemma_cyclic_reach(cur, p, n);
        if cyclic_distance(cur, p, n) > 0 {
            assert(!fs[k].ready((cur + 0) % n));
            lemma_small_mod(cur as nat, n as nat);
        }
        assert(fs[k].ready(p));
        lemma_mod_within_two_rounds(p - cur + n, n);
    }
}

/// Round robin over a farm of `n` workers that all stay ready visits every
/// worker within any window of `n` successive picks.
pub proof fn lemma_round_robin_visits_all<W>(fs: Seq<FarmView<W>>, picks: Seq<int>, start: int, w: int)
    requires
        fs.len() == picks.len() + 1,
        fs[0].wf(),
        fs[0].workers.len() > 0,
        forall|i: int|
            0 <= i < picks.len() ==> #[trigger] fs[i].all_ready() && round_robin_step(
                fs[i],
                picks[i],
                fs[i + 1],
            ),
        0 <= start,
        start + fs[0].workers.len() <= picks.len(),
        0 <= w < fs[0].workers.len(),
    ensures
        exists|k: int| start <= k < start + fs[0].workers.len() && #[trigger] picks[k] == w,
{
    let n = fs[0].workers.len() as int;
    let c = fs[0].next_worker as int;
    lemma_mod_bound(c + start, n);
    let a = (c + start) % n;
    lemma_cyclic_reach(a, w, n);
    let d = cyclic_distance(a, w, n);
    let k = start + d;
    lemma_round_robin_in_order(fs, picks, k);
    lemma_add_mod_noop_right(d, c + start, n);
    assert(picks[k] == (c + k) % n);
    assert((d + a) % n == (d + (c + start)) % n);
    assert(picks[k] == w);
}

/// The bytes written to a worker for the requests `sent`, in order: their
/// frames one after another.
pub open spec fn outbound_stream(sent: Seq<(u64, Seq<u8>, Seq<u8>)>) -> Seq<u8>
    decreases sent.len(),
{
    if sent.len() == 0 {
        Seq::empty()
    } else {
        request_frame(decimal(sent[0].0 as nat), sent[0].1, sent[0].2) + outbound_stream(
            sent.skip(1),
        )
    }
}

/// Writing one more request's frame after a worker's stream gives the
/// stream of the requests with that one appended.
pub proof fn lemma_outbound_stream_append(
    sent: Seq<(u64, Seq<u8>, Seq<u8>)>,
    id: u64,
    action: Seq<u8>,
    payload: Seq<u8>,
)
    ensures
        outbound_stream(sent.push((id, action, payload))) == outbound_stream(sent) + request_frame(
            decimal(id as nat),
            action,
            payload,
        ),
    decreases sent.len(),
{
    let f = request_frame(decimal(id as nat), action, payload);
    if sent.len() == 0 {
        assert(sent.push((id, action, payload)).skip(1) =~= Seq::<(u64, Seq<u8>, Seq<u8>)>::empty());
        assert(outbound_stream(Seq::<(u64, Seq<u8>, Seq<u8>)>::empty()) == Seq::<u8>::empty());
        assert(f + Seq::<u8>::empty() =~= f);
        assert(Seq::<u8>::empty() + f =~= f);
    } else {
        lemma_outbound_stream_append(sent.skip(1), id, action, payload);
        assert(sent.push((id, action, payload)).skip(1) =~= sent.skip(1).push((id, action, payload)));
        let h = request_frame(decimal(sent[0].0 as nat), sent[0].1, sent[0].2);
        assert(h + (outbound_stream(sent.skip(1)) + f) =~= (h + outbound_stream(sent.skip(1))) + f);
    }
}

/// A worker's outbound stream holds whole frames with nothing interleaved:
/// when the fields hold no line feed, the stream determines the requests
/// that were written, in order.
pub proof fn lemma_outbound_stream_reads_back(
    s1: Seq<(u64, Seq<u8>, Seq<u8>)>,
    s2: Seq<(u64, Seq<u8>, Seq<u8>)>,
)
    requires
        forall|i: int|
            0 <= i < s1.len() ==> no_line_feed((#[trigger] s1[i]).1) && no_line_feed(s1[i].2),
        forall|i: int|
            0 <= i < s2.len() ==> no_line_feed((#[trigger] s2[i]).1) && no_line_feed(s2[i].2),
        outbound_stream(s1) == outbound_stream(s2),
    ensures
        s1 == s2,
    decreases s1.len(),
{
    if s1.len() == 0 && s2.len() == 0 {
        assert(s1 =~= s2);
    } else if s1.len() == 0 {
        assert(outbound_stream(s2).len() > 0);
    } else if s2.len() == 0 {
        assert(outbound_stream(s1).len() > 0);
    } else {
        lemma_decimal(s1[0].0 as nat);
        lemma_decimal(s2[0].0 as nat);
        assert(no_line_feed(s1[0].1) && no_line_feed(s1[0].2));
        assert(no_line_feed(s2[0].1) && no_line_feed(s2[0].2));
        lemma_request_frame_unambiguous(
            decimal(s1[0].0 as nat),
            s1[0].1,
            s1[0].2,
            outbound_stream(s1.skip(1)),
            decimal(s2[0].0 as nat),
            s2[0].1,
            s2[0].2,
            outbound_stream(s2.skip(1)),
        );
        lemma_id_text_round_trip(s1[0].0);
        lemma_id_text_round_trip(s2[0].0);
        assert forall|i: int| 0 <= i < s1.skip(1).len() implies no_line_feed(
            (#[trigger] s1.skip(1)[i]).1,
        ) && no_line_feed(s1.skip(1)[i].2) by {
            assert(s1.skip(1)[i] == s1[i + 1]);
        }
        assert forall|i: int| 0 <= i < s2.skip(1).len() implies no_line_feed(
            (#[trigger] s2.skip(1)[i]).1,
        ) && no_line_feed(s2.skip(1)[i].2) by {
            assert(s2.skip(1)[i] == s2[i + 1]);
        }
        lemma_outbound_stream_reads_back(s1.skip(1), s2.skip(1));
        assert(s1 =~= seq![s1[0]] + s1.skip(1));
        assert(s2 =~= seq![s2[0]] + s2.skip(1));
    }
}

} // verus!
