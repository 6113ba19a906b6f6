//! The waiter-queue invariant: every record identity queued on a
//! notification or an event count names a live `Waiting` record of the
//! matching kind, and no identity is queued twice anywhere.
//!
//! Signal and Advance complete queued records without a fallback path of
//! their own; this invariant is why their bookkeeping-error branches never
//! run. Every nucleus operation keeps it.

use vstd::prelude::*;
use crate::access::{ObjectId, PoolTag};
use crate::completion::{
    all_waiting_distinct, keeps_record, names_slot, record_of, PendingKind, PendingPool, PendingState, WaitQueue,
};
use crate::dispatch::{arch_done, core_done, invoke_done, words};
use crate::entry::{parked_threads, switch_plan, switched};
use crate::error::CapError;
use crate::event_count::{ids, satisfied, unsatisfied, AwaitQueue};
use crate::invoke::{cap_entry, spec_caller_table, spec_current_waiter, InvokeOutcome};
use crate::key::RawKey;
use crate::key_table::CallerTable;
use crate::nucleus::{pending_cancelled, Nucleus};
use crate::object_pool::picked;
use crate::object_type::{core_type_of_index, CoreType, ObjectType};
use crate::retype::{retype_check, retype_done, run_of, Carve};
use crate::sync_ops::{
    advance_done, await_done, entry_id, event_count_done, notification_done, poll_done, pool_slot_updated,
    signal_done, typed_entry, wait_done,
};
use crate::table_ops::views;
use crate::thread::ExecutionContext;

verus! {

/// The record identities queued on each notification slot, in order; none
/// for a vacant slot.
pub open spec fn notification_queues(n: &Nucleus) -> Seq<Seq<ObjectId>> {
    Seq::new(n.pools.notifications.objects().len(), |s: int| match n.pools.notifications.objects()[s] {
        Some(x) => x.queued(),
        None => Seq::<ObjectId>::empty(),
    })
}

/// The record identities queued on each event-count slot, in order; none
/// for a vacant slot.
pub open spec fn counter_queues(n: &Nucleus) -> Seq<Seq<ObjectId>> {
    Seq::new(n.pools.event_counts.objects().len(), |s: int| match n.pools.event_counts.objects()[s] {
        Some(x) => ids(x.queued()),
        None => Seq::<ObjectId>::empty(),
    })
}

/// Whether `id` names a live `Waiting` record of `kind`.
pub open spec fn waiting_as(p: &PendingPool, id: ObjectId, kind: PendingKind) -> bool {
    p.live(id) matches Some(inv) && inv.state == PendingState::Waiting && inv.kind == kind
}

/// Every queue of `qs` names live `Waiting` records of `kind`, and no
/// identity occurs at two positions of `qs`.
pub open spec fn queues_hold(p: &PendingPool, qs: Seq<Seq<ObjectId>>, kind: PendingKind) -> bool {
    &&& forall|s: int, i: int| 0 <= s < qs.len() && 0 <= i < qs[s].len()
        ==> waiting_as(p, #[trigger] qs[s][i], kind)
    &&& forall|s1: int, i1: int, s2: int, i2: int|
        0 <= s1 < qs.len() && 0 <= s2 < qs.len() && 0 <= i1 < qs[s1].len() && 0 <= i2 < qs[s2].len()
        && (s1 != s2 || i1 != i2) ==> #[trigger] qs[s1][i1] != #[trigger] qs[s2][i2]
}

/// The invariant: every notification queue holds distinct waiting
/// `NotificationWait` records, every event-count queue distinct waiting
/// `EventCountAwait` records, and no identity is queued twice.
pub open spec fn queues_waiting(n: &Nucleus) -> bool {
    &&& queues_hold(&n.pending, notification_queues(n), PendingKind::NotificationWait)
    &&& queues_hold(&n.pending, counter_queues(n), PendingKind::EventCountAwait)
}

/// Two live identities in the same slot are the same identity.
proof fn lemma_live_same_slot(p: &PendingPool, x: ObjectId, y: ObjectId)
    requires
        p.live(x) is Some,
        p.live(y) is Some,
        x.index == y.index,
    ensures
        x == y,
{
}

/// A queued identity's slot is named by no other queued identity, of either
/// kind.
proof fn lemma_slot_unique(p: &PendingPool, qs: Seq<Seq<ObjectId>>, kind: PendingKind, s1: int, i1: int,
    s2: int, i2: int)
    requires
        queues_hold(p, qs, kind),
        0 <= s1 < qs.len() && 0 <= s2 < qs.len() && 0 <= i1 < qs[s1].len() && 0 <= i2 < qs[s2].len(),
        s1 != s2 || i1 != i2,
    ensures
        qs[s1][i1].index != qs[s2][i2].index,
{
    assert(waiting_as(p, qs[s1][i1], kind));
    assert(waiting_as(p, qs[s2][i2], kind));
    if qs[s1][i1].index == qs[s2][i2].index {
        lemma_live_same_slot(p, qs[s1][i1], qs[s2][i2]);
    }
}

/// Queues of different kinds never share a slot.
proof fn lemma_kinds_apart(p: &PendingPool, qa: Seq<Seq<ObjectId>>, ka: PendingKind, qb: Seq<Seq<ObjectId>>,
    kb: PendingKind, s1: int, i1: int, s2: int, i2: int)
    requires
        queues_hold(p, qa, ka),
        queues_hold(p, qb, kb),
        ka != kb,
        0 <= s1 < qa.len() && 0 <= i1 < qa[s1].len(),
        0 <= s2 < qb.len() && 0 <= i2 < qb[s2].len(),
    ensures
        qa[s1][i1].index != qb[s2][i2].index,
{
    assert(waiting_as(p, qa[s1][i1], ka));
    assert(waiting_as(p, qb[s2][i2], kb));
    if qa[s1][i1].index == qb[s2][i2].index {
        lemma_live_same_slot(p, qa[s1][i1], qb[s2][i2]);
    }
}

/// Queues keep holding when every queued identity resolves as before.
proof fn lemma_hold_frame(p: &PendingPool, p2: &PendingPool, qs: Seq<Seq<ObjectId>>, kind: PendingKind)
    requires
        queues_hold(p, qs, kind),
        forall|s: int, i: int| 0 <= s < qs.len() && 0 <= i < qs[s].len() ==> p2.live(#[trigger] qs[s][i]) == p.live(qs[s][i]),
    ensures
        queues_hold(p2, qs, kind),
{
    assert forall|s: int, i: int| 0 <= s < qs.len() && 0 <= i < qs[s].len()
        implies waiting_as(p2, #[trigger] qs[s][i], kind) by {
        assert(waiting_as(p, qs[s][i], kind));
    }
}

/// An identity resolves as before when its slot's record and generation
/// are unchanged.
proof fn lemma_live_unchanged(p: &PendingPool, p2: &PendingPool, x: ObjectId)
    requires
        p.wf(),
        p2.wf(),
        (x.index as int) < PendingPool::CAPACITY ==> p2.records()[x.index as int] == p.records()[x.index as int]
            && p2.generations()[x.index as int] == p.generations()[x.index as int],
    ensures
        p2.live(x) == p.live(x),
{
}

/// Every queued identity whose slot a pool change left alone resolves as
/// before, so the queues keep holding.
proof fn lemma_hold_untouched(p: &PendingPool, p2: &PendingPool, qs: Seq<Seq<ObjectId>>, kind: PendingKind)
    requires
        p.wf(),
        p2.wf(),
        queues_hold(p, qs, kind),
        forall|s: int, i: int| 0 <= s < qs.len() && 0 <= i < qs[s].len() ==> {
            let t = (#[trigger] qs[s][i]).index as int;
            p2.records()[t] == p.records()[t] && p2.generations()[t] == p.generations()[t]
        },
    ensures
        queues_hold(p2, qs, kind),
{
    assert forall|s: int, i: int| 0 <= s < qs.len() && 0 <= i < qs[s].len()
        implies p2.live(#[trigger] qs[s][i]) == p.live(qs[s][i]) by {
        lemma_live_unchanged(p, p2, qs[s][i]);
    }
    lemma_hold_frame(p, p2, qs, kind);
}

/// Queues drawn from held queues, slot by slot, without repeating an
/// identity within a queue, hold too.
proof fn lemma_hold_sub(p: &PendingPool, qs: Seq<Seq<ObjectId>>, qs2: Seq<Seq<ObjectId>>, kind: PendingKind)
    requires
        queues_hold(p, qs, kind),
        qs2.len() == qs.len(),
        forall|s: int, j: int| 0 <= s < qs2.len() && 0 <= j < qs2[s].len() ==> qs[s].contains(#[trigger] qs2[s][j]),
        forall|s: int, j1: int, j2: int| 0 <= s < qs2.len() && 0 <= j1 < j2 < qs2[s].len()
            ==> #[trigger] qs2[s][j1] != #[trigger] qs2[s][j2],
    ensures
        queues_hold(p, qs2, kind),
{
    assert forall|s: int, i: int| 0 <= s < qs2.len() && 0 <= i < qs2[s].len()
        implies waiting_as(p, #[trigger] qs2[s][i], kind) by {
        assert(qs[s].contains(qs2[s][i]));
        let k = choose|k: int| 0 <= k < qs[s].len() && qs[s][k] == qs2[s][i];
        assert(waiting_as(p, qs[s][k], kind));
    }
    assert forall|s1: int, i1: int, s2: int, i2: int|
        0 <= s1 < qs2.len() && 0 <= s2 < qs2.len() && 0 <= i1 < qs2[s1].len() && 0 <= i2 < qs2[s2].len()
        && (s1 != s2 || i1 != i2) implies #[trigger] qs2[s1][i1] != #[trigger] qs2[s2][i2] by {
        if s1 == s2 {
            if i1 > i2 {
                assert(qs2[s1][i2] != qs2[s1][i1]);
            }
        } else {
            assert(qs[s1].contains(qs2[s1][i1]));
            assert(qs[s2].contains(qs2[s2][i2]));
            let k1 = choose|k: int| 0 <= k < qs[s1].len() && qs[s1][k] == qs2[s1][i1];
            let k2 = choose|k: int| 0 <= k < qs[s2].len() && qs[s2][k] == qs2[s2][i2];
            assert(qs[s1][k1] != qs[s2][k2]);
        }
    }
}

/// One queue with its front removed still holds.
proof fn lemma_hold_drop_front(p: &PendingPool, qs: Seq<Seq<ObjectId>>, kind: PendingKind, s0: int)
    requires
        queues_hold(p, qs, kind),
        0 <= s0 < qs.len(),
        qs[s0].len() > 0,
    ensures
        queues_hold(p, qs.update(s0, qs[s0].drop_first()), kind),
{
    let qs2 = qs.update(s0, qs[s0].drop_first());
    assert forall|s: int, j: int| 0 <= s < qs2.len() && 0 <= j < qs2[s].len() implies qs[s].contains(#[trigger] qs2[s][j]) by {
        if s == s0 {
            assert(qs2[s][j] == qs[s][j + 1]);
        } else {
            assert(qs2[s][j] == qs[s][j]);
        }
    }
    assert forall|s: int, j1: int, j2: int| 0 <= s < qs2.len() && 0 <= j1 < j2 < qs2[s].len()
        implies #[trigger] qs2[s][j1] != #[trigger] qs2[s][j2] by {
        if s == s0 {
            assert(qs2[s][j1] == qs[s][j1 + 1]);
            assert(qs2[s][j2] == qs[s][j2 + 1]);
        } else {
            assert(qs2[s][j1] == qs[s][j1]);
            assert(qs2[s][j2] == qs[s][j2]);
        }
    }
    lemma_hold_sub(p, qs, qs2, kind);
}

/// Every queued identity names an occupied pool slot.
proof fn lemma_queued_slots_taken(p: &PendingPool, qs: Seq<Seq<ObjectId>>, kind: PendingKind)
    requires
        queues_hold(p, qs, kind),
    ensures
        forall|s: int, i: int| 0 <= s < qs.len() && 0 <= i < qs[s].len() ==> {
            let t = (#[trigger] qs[s][i]).index as int;
            0 <= t < PendingPool::CAPACITY && p.records()[t] is Some
        },
{
    assert forall|s: int, i: int| 0 <= s < qs.len() && 0 <= i < qs[s].len() implies {
        let t = (#[trigger] qs[s][i]).index as int;
        0 <= t < PendingPool::CAPACITY && p.records()[t] is Some
    } by {
        assert(waiting_as(p, qs[s][i], kind));
    }
}

/// Registering a record in a vacant slot leaves every queue holding.
proof fn lemma_hold_fresh_slot(p: &PendingPool, p2: &PendingPool, qs: Seq<Seq<ObjectId>>, kind: PendingKind, k: int)
    requires
        p.wf(),
        p2.wf(),
        queues_hold(p, qs, kind),
        p.records()[k] is None,
        forall|t: int| 0 <= t < PendingPool::CAPACITY && t != k
            ==> #[trigger] p2.records()[t] == p.records()[t] && p2.generations()[t] == p.generations()[t],
    ensures
        queues_hold(p2, qs, kind),
{
    lemma_queued_slots_taken(p, qs, kind);
    lemma_hold_untouched(p, p2, qs, kind);
}

/// A fresh waiting record, registered in a vacant slot, joins the back of
/// one queue.
proof fn lemma_hold_push(p: &PendingPool, p2: &PendingPool, qs: Seq<Seq<ObjectId>>, kind: PendingKind, s0: int,
    rec: ObjectId)
    requires
        p.wf(),
        p2.wf(),
        queues_hold(p, qs, kind),
        0 <= s0 < qs.len(),
        0 <= rec.index < PendingPool::CAPACITY,
        p.records()[rec.index as int] is None,
        waiting_as(p2, rec, kind),
        forall|t: int| 0 <= t < PendingPool::CAPACITY && t != rec.index as int
            ==> #[trigger] p2.records()[t] == p.records()[t] && p2.generations()[t] == p.generations()[t],
    ensures
        queues_hold(p2, qs.update(s0, qs[s0].push(rec)), kind),
{
    lemma_hold_fresh_slot(p, p2, qs, kind, rec.index as int);
    lemma_queued_slots_taken(p, qs, kind);
    let qs2 = qs.update(s0, qs[s0].push(rec));
    assert forall|s: int, i: int| 0 <= s < qs2.len() && 0 <= i < qs2[s].len()
        implies waiting_as(p2, #[trigger] qs2[s][i], kind) by {
        if s == s0 && i == qs[s0].len() {
        } else {
            assert(qs2[s][i] == qs[s][i]);
        }
    }
    assert forall|s1: int, i1: int, s2: int, i2: int|
        0 <= s1 < qs2.len() && 0 <= s2 < qs2.len() && 0 <= i1 < qs2[s1].len() && 0 <= i2 < qs2[s2].len()
        && (s1 != s2 || i1 != i2) implies #[trigger] qs2[s1][i1] != #[trigger] qs2[s2][i2] by {
        let new1 = s1 == s0 && i1 == qs[s0].len();
        let new2 = s2 == s0 && i2 == qs[s0].len();
        if !new1 {
            assert(qs2[s1][i1] == qs[s1][i1]);
        }
        if !new2 {
            assert(qs2[s2][i2] == qs[s2][i2]);
        }
        if !new1 && !new2 {
            assert(qs[s1][i1] != qs[s2][i2]);
        }
    }
}

/// The notification queues after slot `i` of the notification pool was
/// replaced.
proof fn lemma_notification_queues_slot(a: &Nucleus, b: &Nucleus, i: int)
    requires
        pool_slot_updated(a.pools.notifications, b.pools.notifications, i),
        0 <= i < a.pools.notifications.objects().len(),
    ensures
        notification_queues(b) == notification_queues(a).update(i,
            b.pools.notifications.objects()[i].unwrap().queued()),
{
    assert(notification_queues(b) =~= notification_queues(a).update(i,
        b.pools.notifications.objects()[i].unwrap().queued()));
}

/// The event-count queues after slot `i` of the event-count pool was
/// replaced.
proof fn lemma_counter_queues_slot(a: &Nucleus, b: &Nucleus, i: int)
    requires
        pool_slot_updated(a.pools.event_counts, b.pools.event_counts, i),
        0 <= i < a.pools.event_counts.objects().len(),
    ensures
        counter_queues(b) == counter_queues(a).update(i,
            ids(b.pools.event_counts.objects()[i].unwrap().queued())),
{
    assert(counter_queues(b) =~= counter_queues(a).update(i,
        ids(b.pools.event_counts.objects()[i].unwrap().queued())));
}

/// `Signal` keeps every queued record waiting, and on a live notification
/// it always succeeds: the record it completes is the front waiter's, which
/// the invariant holds `Waiting`.
pub proof fn lemma_signal_keeps_queues(a: &Nucleus, b: &Nucleus, id: ObjectId, bits: u64,
    r: Result<InvokeOutcome, CapError>)
    requires
        a.wf(),
        b.wf(),
        queues_waiting(a),
        signal_done(a, b, id, bits, r),
    ensures
        queues_waiting(b),
        a.pools.notifications.live(id) is Some ==> r is Ok,
{
    if let Some(n) = a.pools.notifications.live(id) {
        let i = id.index as int;
        let qa = notification_queues(a);
        let ca = counter_queues(a);
        assert(qa[i] == n.queued());
        lemma_notification_queues_slot(a, b, i);
        assert(counter_queues(b) =~= ca);
        if n.queued().len() == 0 {
            assert(notification_queues(b) =~= qa);
        } else {
            let rec = qa[i][0];
            let k = rec.index as int;
            assert(waiting_as(&a.pending, rec, PendingKind::NotificationWait));
            lemma_hold_drop_front(&a.pending, qa, PendingKind::NotificationWait, i);
            let qb = qa.update(i, qa[i].drop_first());
            assert(notification_queues(b) == qb);
            assert forall|s: int, j: int| 0 <= s < qb.len() && 0 <= j < qb[s].len() implies {
                let t = (#[trigger] qb[s][j]).index as int;
                b.pending.records()[t] == a.pending.records()[t] && b.pending.generations()[t] == a.pending.generations()[t]
            } by {
                if s == i {
                    assert(qb[s][j] == qa[i][j + 1]);
                    lemma_slot_unique(&a.pending, qa, PendingKind::NotificationWait, i, j + 1, i, 0);
                } else {
                    assert(qb[s][j] == qa[s][j]);
                    lemma_slot_unique(&a.pending, qa, PendingKind::NotificationWait, s, j, i, 0);
                }
            }
            lemma_hold_untouched(&a.pending, &b.pending, qb, PendingKind::NotificationWait);
            assert forall|s: int, j: int| 0 <= s < ca.len() && 0 <= j < ca[s].len() implies {
                let t = (#[trigger] ca[s][j]).index as int;
                b.pending.records()[t] == a.pending.records()[t] && b.pending.generations()[t] == a.pending.generations()[t]
            } by {
                lemma_kinds_apart(&a.pending, ca, PendingKind::EventCountAwait, qa, PendingKind::NotificationWait,
                    s, j, i, 0);
            }
            lemma_hold_untouched(&a.pending, &b.pending, ca, PendingKind::EventCountAwait);
        }
    }
}

/// `Wait` keeps every queued record waiting: a blocked caller's fresh
/// record takes a vacant slot and joins the back of one queue.
pub proof fn lemma_wait_keeps_queues(a: &Nucleus, b: &Nucleus, id: ObjectId, waiter: ObjectId,
    r: Result<InvokeOutcome, CapError>)
    requires
        a.wf(),
        b.wf(),
        queues_waiting(a),
        wait_done(a, b, id, waiter, r),
    ensures
        queues_waiting(b),
{
    if let Some(n) = a.pools.notifications.live(id) {
        let i = id.index as int;
        let qa = notification_queues(a);
        let ca = counter_queues(a);
        assert(qa[i] == n.queued());
        lemma_notification_queues_slot(a, b, i);
        assert(counter_queues(b) =~= ca);
        if n.bits() != 0 || n.queued().len() == WaitQueue::CAPACITY || a.pending.next_fit() is None {
            assert(notification_queues(b) =~= qa);
        } else {
            let s = a.pending.next_fit()->Some_0;
            a.pending.lemma_first_free_sound(0);
            let record = ObjectId {
                pool: PoolTag::Pending,
                index: s as u16,
                generation: (a.pending.generations()[s] + 1) as u32,
            };
            assert(waiting_as(&b.pending, record, PendingKind::NotificationWait));
            lemma_hold_push(&a.pending, &b.pending, qa, PendingKind::NotificationWait, i, record);
            assert(notification_queues(b) == qa.update(i, qa[i].push(record)));
            lemma_hold_fresh_slot(&a.pending, &b.pending, ca, PendingKind::EventCountAwait, s);
        }
    }
}

/// `Poll` leaves every queue and record as it was.
pub proof fn lemma_poll_keeps_queues(a: &Nucleus, b: &Nucleus, id: ObjectId, r: Result<InvokeOutcome, CapError>)
    requires
        a.wf(),
        b.wf(),
        queues_waiting(a),
        poll_done(a, b, id, r),
    ensures
        queues_waiting(b),
{
    if let Some(n) = a.pools.notifications.live(id) {
        let i = id.index as int;
        lemma_notification_queues_slot(a, b, i);
        assert(notification_queues(b) =~= notification_queues(a));
        assert(counter_queues(b) =~= counter_queues(a));
    }
}

/// Filtering keeps keys distinct.
proof fn lemma_filter_keys_distinct<A>(q: Seq<A>, pred: spec_fn(A) -> bool, key: spec_fn(A) -> ObjectId)
    requires
        forall|i: int, j: int| 0 <= i < j < q.len() ==> key(#[trigger] q[i]) != key(#[trigger] q[j]),
    ensures
        forall|i: int, j: int| 0 <= i < j < q.filter(pred).len()
            ==> key(#[trigger] q.filter(pred)[i]) != key(#[trigger] q.filter(pred)[j]),
    decreases q.len(),
{
    reveal(Seq::filter);
    if q.len() > 0 {
        let d = q.drop_last();
        let last = q.last();
        assert(q =~= d.push(last));
        d.lemma_filter_push(last, pred);
        lemma_filter_keys_distinct(d, pred, key);
        let f = d.filter(pred);
        if pred(last) {
            assert forall|i: int, j: int| 0 <= i < j < q.filter(pred).len()
                implies key(#[trigger] q.filter(pred)[i]) != key(#[trigger] q.filter(pred)[j]) by {
                assert(q.filter(pred) == f.push(last));
                if j == f.len() {
                    assert(f.contains(f[i]));
                    d.lemma_filter_contains_rev(pred, f[i]);
                    let k = choose|k: int| 0 <= k < d.len() && d[k] == f[i];
                    assert(q[k] == d[k]);
                    assert(key(q[k]) != key(q[q.len() - 1]));
                } else {
                    assert(q.filter(pred)[i] == f[i]);
                    assert(q.filter(pred)[j] == f[j]);
                }
            }
        } else {
            assert(q.filter(pred) == f);
        }
    }
}

/// Where a filtered element sits in the original sequence.
proof fn lemma_filter_origin<A>(q: Seq<A>, pred: spec_fn(A) -> bool, k: int) -> (j: int)
    requires
        0 <= k < q.filter(pred).len(),
    ensures
        0 <= j < q.len(),
        q[j] == q.filter(pred)[k],
        pred(q[j]),
{
    let f = q.filter(pred);
    assert(f.contains(f[k]));
    q.lemma_filter_contains_rev(pred, f[k]);
    q.lemma_filter_pred(pred, k);
    choose|j: int| 0 <= j < q.len() && q[j] == f[k]
}

/// The awaits of one event-count queue, split by a counter value: both
/// parts have distinct identities drawn from the queue, and no identity is
/// in both.
proof fn lemma_split_queue(q: Seq<(ObjectId, u64)>, v: u64)
    requires
        forall|i: int, j: int| 0 <= i < j < ids(q).len() ==> #[trigger] ids(q)[i] != #[trigger] ids(q)[j],
    ensures
        forall|k: int| 0 <= k < ids(satisfied(q, v)).len() ==> ids(q).contains(#[trigger] ids(satisfied(q, v))[k]),
        forall|k: int| 0 <= k < ids(unsatisfied(q, v)).len() ==> ids(q).contains(#[trigger] ids(unsatisfied(q, v))[k]),
        forall|i: int, j: int| 0 <= i < j < ids(satisfied(q, v)).len()
            ==> #[trigger] ids(satisfied(q, v))[i] != #[trigger] ids(satisfied(q, v))[j],
        forall|i: int, j: int| 0 <= i < j < ids(unsatisfied(q, v)).len()
            ==> #[trigger] ids(unsatisfied(q, v))[i] != #[trigger] ids(unsatisfied(q, v))[j],
        forall|i: int, j: int| 0 <= i < ids(satisfied(q, v)).len() && 0 <= j < ids(unsatisfied(q, v)).len()
            ==> #[trigger] ids(satisfied(q, v))[i] != #[trigger] ids(unsatisfied(q, v))[j],
{
    let ps = |e: (ObjectId, u64)| e.1 <= v;
    let pu = |e: (ObjectId, u64)| !(e.1 <= v);
    let key = |e: (ObjectId, u64)| e.0;
    assert forall|i: int, j: int| 0 <= i < j < q.len() implies key(#[trigger] q[i]) != key(#[trigger] q[j]) by {
        assert(ids(q)[i] == q[i].0);
        assert(ids(q)[j] == q[j].0);
    }
    lemma_filter_keys_distinct(q, ps, key);
    lemma_filter_keys_distinct(q, pu, key);
    let sat = satisfied(q, v);
    let uns = unsatisfied(q, v);
    assert forall|k: int| 0 <= k < ids(sat).len() implies ids(q).contains(#[trigger] ids(sat)[k]) by {
        let j = lemma_filter_origin(q, ps, k);
        assert(ids(q)[j] == q[j].0);
    }
    assert forall|k: int| 0 <= k < ids(uns).len() implies ids(q).contains(#[trigger] ids(uns)[k]) by {
        let j = lemma_filter_origin(q, pu, k);
        assert(ids(q)[j] == q[j].0);
    }
    assert forall|i: int, j: int| 0 <= i < j < ids(sat).len() implies #[trigger] ids(sat)[i] != #[trigger] ids(sat)[j] by {
        assert(key(sat[i]) != key(sat[j]));
    }
    assert forall|i: int, j: int| 0 <= i < j < ids(uns).len() implies #[trigger] ids(uns)[i] != #[trigger] ids(uns)[j] by {
        assert(key(uns[i]) != key(uns[j]));
    }
    assert forall|i: int, j: int| 0 <= i < ids(sat).len() && 0 <= j < ids(uns).len()
        implies #[trigger] ids(sat)[i] != #[trigger] ids(uns)[j] by {
        let ji = lemma_filter_origin(q, ps, i);
        let jj = lemma_filter_origin(q, pu, j);
        assert(ji != jj);
        assert(ids(q)[ji] == q[ji].0);
        assert(ids(q)[jj] == q[jj].0);
        if ji < jj {
            assert(ids(q)[ji] != ids(q)[jj]);
        } else {
            assert(ids(q)[jj] != ids(q)[ji]);
        }
    }
}

/// Distinct identities drawn from one held queue are distinct waiting
/// records.
proof fn lemma_drawn_waiting(p: &PendingPool, qs: Seq<Seq<ObjectId>>, kind: PendingKind, i: int, woke: Seq<ObjectId>)
    requires
        queues_hold(p, qs, kind),
        0 <= i < qs.len(),
        forall|k: int| 0 <= k < woke.len() ==> qs[i].contains(#[trigger] woke[k]),
        forall|x: int, y: int| 0 <= x < y < woke.len() ==> #[trigger] woke[x] != #[trigger] woke[y],
    ensures
        all_waiting_distinct(p, woke),
{
    assert forall|k: int| 0 <= k < woke.len() implies
        (p.live(#[trigger] woke[k]) matches Some(inv) && inv.state == PendingState::Waiting) by {
        assert(qs[i].contains(woke[k]));
        let j = choose|j: int| 0 <= j < qs[i].len() && qs[i][j] == woke[k];
        assert(waiting_as(p, qs[i][j], kind));
    }
}

/// Records woken out of event-count queue `i`, which keeps `rest`: every
/// other queued record keeps its slot untouched, so the queues keep
/// holding.
proof fn lemma_woken_leave_queues(a: &Nucleus, b: &Nucleus, i: int, woke: Seq<ObjectId>, rest: Seq<ObjectId>)
    requires
        a.wf(),
        b.wf(),
        queues_waiting(a),
        0 <= i < counter_queues(a).len(),
        forall|k: int| 0 <= k < woke.len() ==> counter_queues(a)[i].contains(#[trigger] woke[k]),
        forall|k: int| 0 <= k < rest.len() ==> counter_queues(a)[i].contains(#[trigger] rest[k]),
        forall|x: int, y: int| 0 <= x < y < rest.len() ==> #[trigger] rest[x] != #[trigger] rest[y],
        forall|x: int, y: int| 0 <= x < woke.len() && 0 <= y < rest.len() ==> #[trigger] woke[x] != #[trigger] rest[y],
        counter_queues(b) == counter_queues(a).update(i, rest),
        notification_queues(b) == notification_queues(a),
        b.pending.generations() == a.pending.generations(),
        forall|t: int| 0 <= t < PendingPool::CAPACITY && !names_slot(woke, t)
            ==> #[trigger] b.pending.records()[t] == a.pending.records()[t],
    ensures
        queues_waiting(b),
{
    let qa = notification_queues(a);
    let ca = counter_queues(a);
    let cb = ca.update(i, rest);
    lemma_queued_slots_taken(&a.pending, ca, PendingKind::EventCountAwait);
    lemma_queued_slots_taken(&a.pending, qa, PendingKind::NotificationWait);
    assert forall|s: int, j: int| 0 <= s < cb.len() && 0 <= j < cb[s].len() implies ca[s].contains(#[trigger] cb[s][j]) by {
        if s != i {
            assert(cb[s][j] == ca[s][j]);
        }
    }
    assert forall|s: int, j1: int, j2: int| 0 <= s < cb.len() && 0 <= j1 < j2 < cb[s].len()
        implies #[trigger] cb[s][j1] != #[trigger] cb[s][j2] by {
        if s != i {
            assert(ca[s][j1] != ca[s][j2]);
        }
    }
    lemma_hold_sub(&a.pending, ca, cb, PendingKind::EventCountAwait);
    assert forall|s: int, j: int| 0 <= s < cb.len() && 0 <= j < cb[s].len() implies {
        let t = (#[trigger] cb[s][j]).index as int;
        b.pending.records()[t] == a.pending.records()[t] && b.pending.generations()[t] == a.pending.generations()[t]
    } by {
        let x = cb[s][j];
        assert(ca[s].contains(x));
        let k1 = choose|k: int| 0 <= k < ca[s].len() && ca[s][k] == x;
        if names_slot(woke, x.index as int) {
            let m = choose|m: int| 0 <= m < woke.len() && (#[trigger] woke[m]).index as int == x.index as int;
            assert(ca[i].contains(woke[m]));
            let k2 = choose|k: int| 0 <= k < ca[i].len() && ca[i][k] == woke[m];
            if s == i {
                assert(woke[m] != rest[j]);
            }
            lemma_slot_unique(&a.pending, ca, PendingKind::EventCountAwait, s, k1, i, k2);
        }
    }
    lemma_hold_untouched(&a.pending, &b.pending, cb, PendingKind::EventCountAwait);
    assert forall|s: int, j: int| 0 <= s < qa.len() && 0 <= j < qa[s].len() implies {
        let t = (#[trigger] qa[s][j]).index as int;
        b.pending.records()[t] == a.pending.records()[t] && b.pending.generations()[t] == a.pending.generations()[t]
    } by {
        let x = qa[s][j];
        if names_slot(woke, x.index as int) {
            let m = choose|m: int| 0 <= m < woke.len() && (#[trigger] woke[m]).index as int == x.index as int;
            assert(ca[i].contains(woke[m]));
            let k2 = choose|k: int| 0 <= k < ca[i].len() && ca[i][k] == woke[m];
            lemma_kinds_apart(&a.pending, qa, PendingKind::NotificationWait, ca, PendingKind::EventCountAwait,
                s, j, i, k2);
        }
    }
    lemma_hold_untouched(&a.pending, &b.pending, qa, PendingKind::NotificationWait);
}

/// `Advance` keeps every queued record waiting, and on a live event count
/// with a nonzero delta it never takes the bookkeeping-error path: the
/// waiters it completes are distinct waiting records by the invariant.
pub proof fn lemma_advance_keeps_queues(a: &Nucleus, b: &Nucleus, id: ObjectId, delta: u64,
    r: Result<InvokeOutcome, CapError>)
    requires
        a.wf(),
        b.wf(),
        queues_waiting(a),
        advance_done(a, b, id, delta, r),
    ensures
        queues_waiting(b),
        a.pools.event_counts.live(id) is Some && delta != 0
            ==> r != Err::<InvokeOutcome, CapError>(CapError::InvalidOperation),
{
    if let Some(ec) = a.pools.event_counts.live(id) {
        let i = id.index as int;
        let qa = notification_queues(a);
        let ca = counter_queues(a);
        let q = ec.queued();
        assert(ca[i] == ids(q));
        lemma_counter_queues_slot(a, b, i);
        assert(notification_queues(b) =~= qa);
        assert forall|x: int, y: int| 0 <= x < y < ids(q).len() implies #[trigger] ids(q)[x] != #[trigger] ids(q)[y] by {
            assert(ca[i][x] != ca[i][y]);
        }
        if delta == 0 {
            assert(counter_queues(b) =~= ca);
        } else if ec.spec_value() + delta > u64::MAX {
            let all = ids(q);
            assert forall|k: int| 0 <= k < all.len() implies ca[i].contains(#[trigger] all[k]) by {
                assert(ca[i][k] == all[k]);
            }
            lemma_drawn_waiting(&a.pending, ca, PendingKind::EventCountAwait, i, all);
            let rest = Seq::<ObjectId>::empty();
            assert(ids(Seq::<(ObjectId, u64)>::empty()) =~= rest);
            lemma_woken_leave_queues(a, b, i, all, rest);
        } else {
            let nv = (ec.spec_value() + delta) as u64;
            lemma_split_queue(q, nv);
            let woke = ids(satisfied(q, nv));
            let rest = ids(unsatisfied(q, nv));
            lemma_drawn_waiting(&a.pending, ca, PendingKind::EventCountAwait, i, woke);
            lemma_woken_leave_queues(a, b, i, woke, rest);
        }
    }
}

/// `Await` keeps every queued record waiting: a blocked caller's fresh
/// record takes a vacant slot and joins the back of one queue.
pub proof fn lemma_await_keeps_queues(a: &Nucleus, b: &Nucleus, id: ObjectId, target: u64, waiter: ObjectId,
    r: Result<InvokeOutcome, CapError>)
    requires
        a.wf(),
        b.wf(),
        queues_waiting(a),
        await_done(a, b, id, target, waiter, r),
    ensures
        queues_waiting(b),
{
    if let Some(ec) = a.pools.event_counts.live(id) {
        let i = id.index as int;
        let qa = notification_queues(a);
        let ca = counter_queues(a);
        assert(ca[i] == ids(ec.queued()));
        lemma_counter_queues_slot(a, b, i);
        assert(notification_queues(b) =~= qa);
        if ec.spec_value() >= target || ec.queued().len() == AwaitQueue::CAPACITY
            || a.pending.next_fit() is None {
            assert(counter_queues(b) =~= ca);
        } else {
            let s = a.pending.next_fit()->Some_0;
            a.pending.lemma_first_free_sound(0);
            let record = ObjectId {
                pool: PoolTag::Pending,
                index: s as u16,
                generation: (a.pending.generations()[s] + 1) as u32,
            };
            assert(waiting_as(&b.pending, record, PendingKind::EventCountAwait));
            lemma_hold_push(&a.pending, &b.pending, ca, PendingKind::EventCountAwait, i, record);
            assert(ids(ec.queued().push((record, target))) =~= ids(ec.queued()).push(record));
            assert(counter_queues(b) == ca.update(i, ca[i].push(record)));
            lemma_hold_fresh_slot(&a.pending, &b.pending, qa, PendingKind::NotificationWait, s);
        }
    }
}

/// Every `Notification` invocation keeps every queued record waiting.
pub proof fn lemma_notification_invoke_keeps_queues(a: &Nucleus, b: &Nucleus, caller: CallerTable, key: RawKey,
    op: u64, args: Seq<u64>, r: Result<InvokeOutcome, CapError>)
    requires
        a.wf(),
        b.wf(),
        queues_waiting(a),
        notification_done(a, b, caller, key, op, args, r),
    ensures
        queues_waiting(b),
{
    if op <= 2 {
        if let Ok(e) = typed_entry(a, caller, key, ObjectType::NOTIFICATION) {
            let id = entry_id(e);
            if op == 0 {
                let bits = if e.badge != 0 { e.badge as u64 } else { args[0] };
                if signal_done(a, b, id, bits, r) {
                    lemma_signal_keeps_queues(a, b, id, bits, r);
                }
            } else if op == 1 {
                if let Ok(waiter) = spec_current_waiter(a) {
                    if wait_done(a, b, id, waiter, r) {
                        lemma_wait_keeps_queues(a, b, id, waiter, r);
                    }
                }
            } else {
                if poll_done(a, b, id, r) {
                    lemma_poll_keeps_queues(a, b, id, r);
                }
            }
        }
    }
}

/// Every `EventCount` invocation keeps every queued record waiting.
pub proof fn lemma_event_count_invoke_keeps_queues(a: &Nucleus, b: &Nucleus, caller: CallerTable, key: RawKey,
    op: u64, args: Seq<u64>, r: Result<InvokeOutcome, CapError>)
    requires
        a.wf(),
        b.wf(),
        queues_waiting(a),
        event_count_done(a, b, caller, key, op, args, r),
    ensures
        queues_waiting(b),
{
    if op <= 2 {
        if let Ok(e) = typed_entry(a, caller, key, ObjectType::EVENT_COUNT) {
            let id = entry_id(e);
            if op == 0 {
                if advance_done(a, b, id, args[0], r) {
                    lemma_advance_keeps_queues(a, b, id, args[0], r);
                }
            } else if op == 1 {
                if let Ok(waiter) = spec_current_waiter(a) {
                    if await_done(a, b, id, args[0], waiter, r) {
                        lemma_await_keeps_queues(a, b, id, args[0], waiter, r);
                    }
                }
            } else if let Some(ec) = a.pools.event_counts.live(id) {
                lemma_counter_queues_slot(a, b, id.index as int);
                assert(counter_queues(b) =~= counter_queues(a));
                assert(notification_queues(b) =~= notification_queues(a));
            }
        }
    }
}

/// Queues purged of a thread's records, whose records are released, keep
/// holding: every record left queued belongs to another thread and keeps
/// its slot.
proof fn lemma_hold_purged(p: &PendingPool, p2: &PendingPool, qs: Seq<Seq<ObjectId>>, qs2: Seq<Seq<ObjectId>>,
    kind: PendingKind, thread: ObjectId)
    requires
        p.wf(),
        p2.wf(),
        queues_hold(p, qs, kind),
        qs2.len() == qs.len(),
        forall|s: int, j: int| 0 <= s < qs2.len() && 0 <= j < qs2[s].len() ==> qs[s].contains(#[trigger] qs2[s][j])
            && keeps_record(p, thread, qs2[s][j]),
        forall|s: int, j1: int, j2: int| 0 <= s < qs2.len() && 0 <= j1 < j2 < qs2[s].len()
            ==> #[trigger] qs2[s][j1] != #[trigger] qs2[s][j2],
        p2.generations() == p.generations(),
        forall|t: int| 0 <= t < PendingPool::CAPACITY ==> #[trigger] p2.records()[t]
            == if record_of(p.records()[t], thread) { None } else { p.records()[t] },
    ensures
        queues_hold(p2, qs2, kind),
{
    lemma_hold_sub(p, qs, qs2, kind);
    lemma_queued_slots_taken(p, qs2, kind);
    assert forall|s: int, j: int| 0 <= s < qs2.len() && 0 <= j < qs2[s].len() implies {
        let t = (#[trigger] qs2[s][j]).index as int;
        p2.records()[t] == p.records()[t] && p2.generations()[t] == p.generations()[t]
    } by {
        assert(keeps_record(p, thread, qs2[s][j]));
        assert(waiting_as(p, qs2[s][j], kind));
    }
    lemma_hold_untouched(p, p2, qs2, kind);
}

/// Thread teardown keeps every queued record waiting.
pub proof fn lemma_teardown_keeps_queues(a: &Nucleus, b: &Nucleus, thread: ObjectId)
    requires
        a.wf(),
        b.wf(),
        queues_waiting(a),
        pending_cancelled(a, b, thread),
    ensures
        queues_waiting(b),
{
    let qa = notification_queues(a);
    let ca = counter_queues(a);
    let qb = notification_queues(b);
    let cb = counter_queues(b);
    let keep = |x: ObjectId| keeps_record(&a.pending, thread, x);
    let keep2 = |e: (ObjectId, u64)| keeps_record(&a.pending, thread, e.0);
    let key = |x: ObjectId| x;
    let key2 = |e: (ObjectId, u64)| e.0;
    assert forall|s: int| 0 <= s < qb.len() implies #[trigger] qb[s] == qa[s].filter(keep) by {
        if a.pools.notifications.objects()[s] is None {
            assert(qa[s].filter(keep) =~= Seq::<ObjectId>::empty()) by {
                reveal(Seq::filter);
            }
        }
    }
    assert forall|s: int, j: int| 0 <= s < qb.len() && 0 <= j < qb[s].len() implies qa[s].contains(#[trigger] qb[s][j])
        && keeps_record(&a.pending, thread, qb[s][j]) by {
        let k = lemma_filter_origin(qa[s], keep, j);
    }
    assert forall|s: int, j1: int, j2: int| 0 <= s < qb.len() && 0 <= j1 < j2 < qb[s].len()
        implies #[trigger] qb[s][j1] != #[trigger] qb[s][j2] by {
        assert forall|x: int, y: int| 0 <= x < y < qa[s].len() implies key(#[trigger] qa[s][x]) != key(#[trigger] qa[s][y]) by {
            assert(qa[s][x] != qa[s][y]);
        }
        lemma_filter_keys_distinct(qa[s], keep, key);
        assert(key(qa[s].filter(keep)[j1]) != key(qa[s].filter(keep)[j2]));
    }
    lemma_hold_purged(&a.pending, &b.pending, qa, qb, PendingKind::NotificationWait, thread);
    assert forall|s: int, j: int| 0 <= s < cb.len() && 0 <= j < cb[s].len() implies ca[s].contains(#[trigger] cb[s][j])
        && keeps_record(&a.pending, thread, cb[s][j]) by {
        let q = a.pools.event_counts.objects()[s].unwrap().queued();
        assert(b.pools.event_counts.objects()[s].unwrap().queued() == q.filter(keep2));
        let k = lemma_filter_origin(q, keep2, j);
        assert(ca[s][k] == q[k].0);
    }
    assert forall|s: int, j1: int, j2: int| 0 <= s < cb.len() && 0 <= j1 < j2 < cb[s].len()
        implies #[trigger] cb[s][j1] != #[trigger] cb[s][j2] by {
        let q = a.pools.event_counts.objects()[s].unwrap().queued();
        assert forall|x: int, y: int| 0 <= x < y < q.len() implies key2(#[trigger] q[x]) != key2(#[trigger] q[y]) by {
            assert(ca[s][x] == q[x].0);
            assert(ca[s][y] == q[y].0);
            assert(ca[s][x] != ca[s][y]);
        }
        lemma_filter_keys_distinct(q, keep2, key2);
        assert(key2(q.filter(keep2)[j1]) != key2(q.filter(keep2)[j2]));
    }
    lemma_hold_purged(&a.pending, &b.pending, ca, cb, PendingKind::EventCountAwait, thread);
}

/// Queues of which some were emptied and the rest kept still hold.
proof fn lemma_hold_some_emptied(p: &PendingPool, qs: Seq<Seq<ObjectId>>, qs2: Seq<Seq<ObjectId>>, kind: PendingKind)
    requires
        queues_hold(p, qs, kind),
        qs2.len() == qs.len(),
        forall|s: int| 0 <= s < qs.len() ==> #[trigger] qs2[s] == qs[s] || qs2[s].len() == 0,
    ensures
        queues_hold(p, qs2, kind),
{
    assert forall|s: int, j: int| 0 <= s < qs2.len() && 0 <= j < qs2[s].len() implies qs[s].contains(#[trigger] qs2[s][j]) by {
        assert(qs2[s] == qs[s]);
        assert(qs[s][j] == qs2[s][j]);
    }
    assert forall|s: int, j1: int, j2: int| 0 <= s < qs2.len() && 0 <= j1 < j2 < qs2[s].len()
        implies #[trigger] qs2[s][j1] != #[trigger] qs2[s][j2] by {
        assert(qs2[s] == qs[s]);
        assert(qs[s][j1] != qs[s][j2]);
    }
    lemma_hold_sub(p, qs, qs2, kind);
}

/// `Retype` keeps every queued record waiting: it leaves the records alone
/// and gives its fresh notifications and event counts empty queues.
pub proof fn lemma_retype_keeps_queues(a: &Nucleus, b: &Nucleus, caller: CallerTable, untyped_key: RawKey,
    args: Seq<u64>, r: Result<(u64, u64), CapError>)
    requires
        a.wf(),
        b.wf(),
        queues_waiting(a),
        retype_done(a, b, caller, untyped_key, args, r),
    ensures
        queues_waiting(b),
{
    let qa = notification_queues(a);
    let ca = counter_queues(a);
    let qb = notification_queues(b);
    let cb = counter_queues(b);
    match retype_check(a, caller, untyped_key, args) {
        Err(e) => {
            if e == CapError::PoolExhausted {
                assert(qb =~= qa);
                assert(cb =~= ca);
            }
        },
        Ok(plan) => {
            let ids_run = run_of(&a.pools, plan);
            let an = a.pools.notifications;
            let bn = b.pools.notifications;
            let ae = a.pools.event_counts;
            let be = b.pools.event_counts;
            if plan.carve == Carve::Notification {
                assert forall|s: int| 0 <= s < qa.len() implies #[trigger] qb[s] == qa[s] || qb[s].len() == 0 by {
                    if picked(ids_run, 0, ids_run.len() as int, s) {
                        let j = choose|j: int| 0 <= j < ids_run.len() && (#[trigger] ids_run[j]).index == s;
                        assert(bn.live(ids_run[j]) is Some);
                    }
                }
                lemma_hold_some_emptied(&a.pending, qa, qb, PendingKind::NotificationWait);
            } else {
                assert(qb =~= qa);
            }
            if plan.carve == Carve::EventCount {
                assert forall|s: int| 0 <= s < ca.len() implies #[trigger] cb[s] == ca[s] || cb[s].len() == 0 by {
                    if picked(ids_run, 0, ids_run.len() as int, s) {
                        let j = choose|j: int| 0 <= j < ids_run.len() && (#[trigger] ids_run[j]).index == s;
                        assert(be.live(ids_run[j]) is Some);
                    }
                }
                lemma_hold_some_emptied(&a.pending, ca, cb, PendingKind::EventCountAwait);
            } else {
                assert(cb =~= ca);
            }
        },
    }
}

/// A change that leaves the records and both object pools alone keeps
/// every queued record waiting.
pub proof fn lemma_frame_keeps_queues(a: &Nucleus, b: &Nucleus)
    requires
        queues_waiting(a),
        b.pending == a.pending,
        b.pools.notifications == a.pools.notifications,
        b.pools.event_counts == a.pools.event_counts,
    ensures
        queues_waiting(b),
{
    assert(notification_queues(b) =~= notification_queues(a));
    assert(counter_queues(b) =~= counter_queues(a));
}

/// Architecture invocations leave the records and both object pools alone.
proof fn lemma_arch_keeps_queues(a: &Nucleus, b: &Nucleus, caller: CallerTable, key: RawKey, ot: ObjectType, op: u64,
    args: Seq<u64>, r: Result<(u64, u64), CapError>)
    requires
        queues_waiting(a),
        arch_done(a, b, caller, key, ot, op, args, r),
    ensures
        queues_waiting(b),
{
    lemma_frame_keeps_queues(a, b);
}

/// Every core-kind invocation keeps every queued record waiting.
proof fn lemma_core_keeps_queues(a: &Nucleus, b: &Nucleus, caller: CallerTable, key: RawKey, ot: ObjectType, op: u64,
    args: Seq<u64>, r: Result<InvokeOutcome, CapError>)
    requires
        a.wf(),
        b.wf(),
        queues_waiting(a),
        core_done(a, b, caller, key, ot, op, args, r),
    ensures
        queues_waiting(b),
{
    match core_type_of_index(ot.spec_index()) {
        Some(CoreType::Untyped) => {
            if op == 0 {
                lemma_retype_keeps_queues(a, b, caller, key, args, words(r));
            }
        },
        Some(CoreType::Thread) => {
            if op == 4 && args[0] == 0 && args[1] == 0 && args[2] == 0 && args[3] == 0 && args[4] == 0 && args[5] == 0 {
                if let Ok(e) = typed_entry(a, caller, key, ObjectType::THREAD) {
                    let id = entry_id(e);
                    if pending_cancelled(a, b, id) {
                        lemma_teardown_keeps_queues(a, b, id);
                    }
                }
            }
        },
        Some(CoreType::KeyTable) => {
            lemma_frame_keeps_queues(a, b);
        },
        Some(CoreType::Notification) => {
            lemma_notification_invoke_keeps_queues(a, b, caller, key, op, args, r);
        },
        Some(CoreType::EventCount) => {
            lemma_event_count_invoke_keeps_queues(a, b, caller, key, op, args, r);
        },
        _ => {},
    }
}

/// Every capability invocation keeps every queued record waiting: a
/// nucleus whose queues hold only distinct waiting records of their kind
/// still does after any invocation, so `Signal` and `Advance` never reach
/// their bookkeeping-error paths.
pub proof fn lemma_invoke_keeps_queues(a: &Nucleus, b: &Nucleus, key: RawKey, op: u64, args: Seq<u64>,
    r: Result<InvokeOutcome, CapError>)
    requires
        a.wf(),
        b.wf(),
        queues_waiting(a),
        invoke_done(a, b, key, op, args, r),
    ensures
        queues_waiting(b),
{
    if let Ok(caller) = spec_caller_table(a) {
        if let Ok(entry) = cap_entry(views(a.tables@), caller, key, 0) {
            if entry.obj_type.spec_is_arch() {
                lemma_arch_keeps_queues(a, b, caller, key, entry.obj_type, op, args, words(r));
            } else {
                lemma_core_keeps_queues(a, b, caller, key, entry.obj_type, op, args, r);
            }
        }
    }
}

/// Parking the running thread and switching keeps every queued record
/// waiting: the only record it releases is the resumed thread's, which is
/// completed and so queued nowhere.
pub proof fn lemma_switch_keeps_queues(a: &Nucleus, b: &Nucleus, frame_addr: u64, record: ObjectId)
    requires
        a.wf(),
        b.wf(),
        queues_waiting(a),
        switch_plan(a, frame_addr, record) is Ok,
        switched(a, b, frame_addr, record, switch_plan(a, frame_addr, record)->Ok_0.0),
    ensures
        queues_waiting(b),
{
    let next = switch_plan(a, frame_addr, record)->Ok_0.0;
    let t = parked_threads(a, frame_addr, record)[next as int].unwrap();
    if let ExecutionContext::Parked { record: rec, .. } = t.context {
        let k = rec.index as int;
        let qa = notification_queues(a);
        let ca = counter_queues(a);
        assert(a.pending.live(rec) matches Some(inv) && inv.state != PendingState::Waiting);
        assert(notification_queues(b) =~= qa);
        assert(counter_queues(b) =~= ca);
        assert forall|s: int, j: int| 0 <= s < qa.len() && 0 <= j < qa[s].len() implies {
            let t = (#[trigger] qa[s][j]).index as int;
            b.pending.records()[t] == a.pending.records()[t] && b.pending.generations()[t] == a.pending.generations()[t]
        } by {
            assert(waiting_as(&a.pending, qa[s][j], PendingKind::NotificationWait));
            if qa[s][j].index == rec.index {
                lemma_live_same_slot(&a.pending, qa[s][j], rec);
            }
        }
        lemma_hold_untouched(&a.pending, &b.pending, qa, PendingKind::NotificationWait);
        assert forall|s: int, j: int| 0 <= s < ca.len() && 0 <= j < ca[s].len() implies {
            let t = (#[trigger] ca[s][j]).index as int;
            b.pending.records()[t] == a.pending.records()[t] && b.pending.generations()[t] == a.pending.generations()[t]
        } by {
            assert(waiting_as(&a.pending, ca[s][j], PendingKind::EventCountAwait));
            if ca[s][j].index == rec.index {
                lemma_live_same_slot(&a.pending, ca[s][j], rec);
            }
        }
        lemma_hold_untouched(&a.pending, &b.pending, ca, PendingKind::EventCountAwait);
    } else {
        lemma_frame_keeps_queues(a, b);
    }
}

/// A nucleus with no notification or event count yet satisfies the
/// invariant.
pub proof fn lemma_empty_pools_queues_waiting(n: &Nucleus)
    requires
        forall|s: int| 0 <= s < n.pools.notifications.objects().len()
            ==> #[trigger] n.pools.notifications.objects()[s] is None,
        forall|s: int| 0 <= s < n.pools.event_counts.objects().len()
            ==> #[trigger] n.pools.event_counts.objects()[s] is None,
    ensures
        queues_waiting(n),
{
}

} // verus!
