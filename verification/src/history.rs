use vstd::prelude::*;

use crate::laws::{lemma_orders_kept, same_terms};
use crate::model::{run, step, Action, FlowState};
use crate::types::{OrderStatus, OrderView};

verus! {

/// How far the order with the given id has come: 0 before it exists, 1 to 5
/// for `Created`, `Accepted`, `Delivered`, `Verified` and `Paid`, and -1 once
/// it is disputed or cancelled.
pub open spec fn progress(t: FlowState, id: u64) -> int {
    if id >= t.orders.len() {
        0
    } else {
        match t.orders[id as int].status {
            OrderStatus::Created => 1,
            OrderStatus::Accepted => 2,
            OrderStatus::Delivered => 3,
            OrderStatus::Verified => 4,
            OrderStatus::Paid => 5,
            _ => -1,
        }
    }
}

/// The state after the first `k` requests of a sequence.
pub open spec fn after(s: FlowState, acts: Seq<Action>, k: int) -> FlowState {
    run(s, acts.take(k))
}

/// Whether the request at position `k` of the sequence succeeded.
pub open spec fn succeeded(s: FlowState, acts: Seq<Action>, k: int) -> bool {
    step(after(s, acts, k), acts[k]) is Ok
}

/// Whether the request is the one that brings the order with the given id and
/// parties to progress `q`, made by the party that step calls for: creation by
/// its NGO for its supplier and verifier, acceptance and delivery by its
/// supplier, verification by its verifier, payment by its NGO.
pub open spec fn moves_to(a: Action, id: u64, o: OrderView, q: int) -> bool {
    match a {
        Action::CreateOrder { ngo, supplier, verifier, .. } => q == 1 && ngo == o.ngo && supplier
            == o.supplier && verifier == o.verifier,
        Action::AcceptOrder { supplier, order_id } => q == 2 && supplier == o.supplier && order_id
            == id,
        Action::SubmitDelivery { supplier, order_id, .. } => q == 3 && supplier == o.supplier
            && order_id == id,
        Action::VerifyDelivery { verifier, order_id } => q == 4 && verifier == o.verifier
            && order_id == id,
        Action::MarkPaid { ngo, order_id } => q == 5 && ngo == o.ngo && order_id == id,
        _ => false,
    }
}

/// Whether the request at position `k` is a dispute of the order with the
/// given id that succeeded.
pub open spec fn disputed_at(s: FlowState, acts: Seq<Action>, id: u64, k: int) -> bool {
    &&& 0 <= k < acts.len()
    &&& succeeded(s, acts, k)
    &&& acts[k] matches Action::RaiseDispute { order_id, .. } && order_id == id
}

/// The request at position `k` succeeded and brought the order from progress
/// `q - 1` to `q`.
pub open spec fn moved_at(s: FlowState, acts: Seq<Action>, id: u64, k: int, q: int) -> bool {
    &&& 0 <= k < acts.len()
    &&& succeeded(s, acts, k)
    &&& progress(after(s, acts, k), id) == q - 1
    &&& progress(after(s, acts, k + 1), id) == q
    &&& moves_to(acts[k], id, after(s, acts, k + 1).orders[id as int], q)
}

/// The request at position `k` succeeded and is the step to progress `q` of
/// the order as it stands at the end of the sequence; for creation, the id it
/// returned is the order's.
pub open spec fn flow_step(s: FlowState, acts: Seq<Action>, id: u64, k: int, q: int) -> bool {
    &&& 0 <= k < acts.len()
    &&& succeeded(s, acts, k)
    &&& moves_to(acts[k], id, run(s, acts).orders[id as int], q)
    &&& q == 1 ==> after(s, acts, k).orders.len() == id
}

/// No request of the sequence is an initialization.
pub open spec fn no_init(acts: Seq<Action>) -> bool {
    forall|k: int| 0 <= k < acts.len() ==> !(#[trigger] acts[k] is Init)
}

/// The state after `k + 1` requests is the state after `k` moved by the
/// request at `k`, or left as it was when that request was refused.
proof fn lemma_after_next(s: FlowState, acts: Seq<Action>, k: int)
    requires
        0 <= k < acts.len(),
    ensures
        after(s, acts, k + 1) == match step(after(s, acts, k), acts[k]) {
            Ok(t) => t,
            Err(_) => after(s, acts, k),
        },
{
    assert(acts.take(k + 1).drop_last() =~= acts.take(k));
    assert(acts.take(k + 1).last() == acts[k]);
}

/// The states along a sequence without its last request are those along the
/// whole sequence.
proof fn lemma_after_prefix(s: FlowState, acts: Seq<Action>, k: int)
    requires
        0 <= k < acts.len(),
    ensures
        after(s, acts.drop_last(), k) == after(s, acts, k),
{
    assert(acts.drop_last().take(k) =~= acts.take(k));
}

proof fn lemma_after_all(s: FlowState, acts: Seq<Action>)
    ensures
        after(s, acts, acts.len() as int) == run(s, acts),
{
    assert(acts.take(acts.len() as int) =~= acts);
}

/// One request moves an order's progress up by one, by the request
/// `moves_to` names, or to -1 by a dispute, or leaves it; -1 stays.
proof fn lemma_progress_step(t: FlowState, a: Action, id: u64)
    requires
        !(a is Init),
    ensures
        step(t, a) matches Ok(u) ==> {
            &&& progress(t, id) == -1 ==> progress(u, id) == -1
            &&& (a matches Action::RaiseDispute { order_id, .. } && order_id == id) ==> progress(
                u,
                id,
            ) == -1
            &&& progress(u, id) == progress(t, id) || progress(u, id) == -1 || (progress(t, id)
                >= 0 && progress(u, id) == progress(t, id) + 1 && moves_to(
                a,
                id,
                u.orders[id as int],
                progress(u, id),
            ))
        },
{
    if let Ok(u) = step(t, a) {
        match a {
            Action::CreateOrder { .. } => {
                if id < t.orders.len() {
                    assert(u.orders[id as int] == t.orders[id as int]);
                }
            },
            Action::AcceptOrder { order_id, .. } => {
                if order_id != id && id < t.orders.len() {
                    assert(u.orders[id as int] == t.orders[id as int]);
                }
            },
            Action::SubmitDelivery { order_id, .. } => {
                if order_id != id && id < t.orders.len() {
                    assert(u.orders[id as int] == t.orders[id as int]);
                }
            },
            Action::VerifyDelivery { order_id, .. } => {
                if order_id != id && id < t.orders.len() {
                    assert(u.orders[id as int] == t.orders[id as int]);
                }
            },
            Action::MarkPaid { order_id, .. } => {
                if order_id != id && id < t.orders.len() {
                    assert(u.orders[id as int] == t.orders[id as int]);
                }
            },
            Action::RaiseDispute { order_id, .. } => {
                if order_id != id && id < t.orders.len() {
                    assert(u.orders[id as int] == t.orders[id as int]);
                }
            },
            _ => {},
        }
    }
}

/// Along a sequence without initialization an order's progress never goes
/// down, except to -1, where it stays.
proof fn lemma_progress_monotone(s: FlowState, acts: Seq<Action>, id: u64, j1: int, j2: int)
    requires
        no_init(acts),
        0 <= j1 <= j2 <= acts.len(),
    ensures
        progress(after(s, acts, j2), id) == -1 || (progress(after(s, acts, j1), id) != -1
            && progress(after(s, acts, j2), id) >= progress(after(s, acts, j1), id)),
    decreases j2 - j1,
{
    if j1 < j2 {
        lemma_progress_monotone(s, acts, id, j1, j2 - 1);
        lemma_after_next(s, acts, j2 - 1);
        assert(!(acts[j2 - 1] is Init));
        lemma_progress_step(after(s, acts, j2 - 1), acts[j2 - 1], id);
    }
}

/// Every level of progress that an order gains along a sequence was gained by
/// one request of the sequence.
proof fn lemma_progress_recorded(s: FlowState, acts: Seq<Action>, id: u64, q: int)
    requires
        no_init(acts),
        0 <= progress(s, id) < q <= progress(run(s, acts), id),
    ensures
        exists|k: int| moved_at(s, acts, id, k, q),
    decreases acts.len(),
{
    let n = acts.len() as int;
    if n == 0 {
        assert(acts =~= Seq::<Action>::empty());
    } else {
        let prefix = acts.drop_last();
        let before = run(s, prefix);
        assert(!(acts[n - 1] is Init));
        lemma_after_next(s, acts, n - 1);
        assert(acts.take(n - 1) =~= prefix);
        lemma_after_all(s, acts);
        lemma_progress_step(before, acts[n - 1], id);
        if q <= progress(before, id) {
            assert forall|k: int| 0 <= k < prefix.len() implies !(#[trigger] prefix[k] is Init) by {
                assert(prefix[k] == acts[k]);
            }
            lemma_progress_recorded(s, prefix, id, q);
            let k = choose|k: int| moved_at(s, prefix, id, k, q);
            lemma_after_prefix(s, acts, k);
            if k + 1 < n {
                lemma_after_prefix(s, acts, k + 1);
            } else {
                lemma_after_all(s, prefix);
            }
            assert(prefix[k] == acts[k]);
            assert(moved_at(s, acts, id, k, q));
        } else {
            assert(moved_at(s, acts, id, n - 1, q));
        }
    }
}

/// The requests that raise an order's progress come in the order of the
/// levels they reach.
proof fn lemma_moves_ordered(
    s: FlowState,
    acts: Seq<Action>,
    id: u64,
    k: int,
    q: int,
    k2: int,
    q2: int,
)
    requires
        no_init(acts),
        1 <= q < q2,
        moved_at(s, acts, id, k, q),
        moved_at(s, acts, id, k2, q2),
    ensures
        k < k2,
{
    if k2 < k {
        lemma_progress_monotone(s, acts, id, k2 + 1, k);
    }
}

/// Apart from initialization, the parties and other terms of an order never
/// change once it exists.
proof fn lemma_terms_stable(s: FlowState, acts: Seq<Action>, id: u64, j: int)
    requires
        no_init(acts),
        0 <= j <= acts.len(),
        id < after(s, acts, j).orders.len(),
    ensures
        id < run(s, acts).orders.len(),
        same_terms(run(s, acts).orders[id as int], after(s, acts, j).orders[id as int]),
    decreases acts.len() - j,
{
    if j == acts.len() {
        lemma_after_all(s, acts);
    } else {
        lemma_after_next(s, acts, j);
        assert(!(acts[j] is Init));
        lemma_orders_kept(after(s, acts, j), acts[j]);
        lemma_terms_stable(s, acts, id, j + 1);
    }
}

/// An order is paid only after the whole flow: along any sequence of requests
/// without initialization that starts before the order exists and ends with it
/// `Paid`, five requests succeeded in this order: its creation by its NGO for
/// its supplier and verifier (which returned its id), its acceptance by its
/// supplier, the delivery by its supplier, the verification by its verifier,
/// and the payment by its NGO. No dispute of it succeeded anywhere in the
/// sequence.
pub proof fn lemma_paid_only_after_full_flow(s: FlowState, acts: Seq<Action>, id: u64)
    requires
        no_init(acts),
        id >= s.orders.len(),
        id < run(s, acts).orders.len(),
        run(s, acts).orders[id as int].status == OrderStatus::Paid,
    ensures
        exists|k1: int, k2: int, k3: int, k4: int, k5: int|
            #![trigger flow_step(s, acts, id, k1, 1), flow_step(s, acts, id, k2, 2), flow_step(s, acts, id, k3, 3), flow_step(s, acts, id, k4, 4), flow_step(s, acts, id, k5, 5)]
            {
                &&& k1 < k2 < k3 < k4 < k5
                &&& flow_step(s, acts, id, k1, 1)
                &&& flow_step(s, acts, id, k2, 2)
                &&& flow_step(s, acts, id, k3, 3)
                &&& flow_step(s, acts, id, k4, 4)
                &&& flow_step(s, acts, id, k5, 5)
            },
        forall|k: int| !#[trigger] disputed_at(s, acts, id, k),
{
    let n = acts.len() as int;
    assert(progress(run(s, acts), id) == 5);
    assert(progress(s, id) == 0);
    lemma_progress_recorded(s, acts, id, 1);
    lemma_progress_recorded(s, acts, id, 2);
    lemma_progress_recorded(s, acts, id, 3);
    lemma_progress_recorded(s, acts, id, 4);
    lemma_progress_recorded(s, acts, id, 5);
    let k1 = choose|k: int| moved_at(s, acts, id, k, 1);
    let k2 = choose|k: int| moved_at(s, acts, id, k, 2);
    let k3 = choose|k: int| moved_at(s, acts, id, k, 3);
    let k4 = choose|k: int| moved_at(s, acts, id, k, 4);
    let k5 = choose|k: int| moved_at(s, acts, id, k, 5);
    lemma_moves_ordered(s, acts, id, k1, 1, k2, 2);
    lemma_moves_ordered(s, acts, id, k2, 2, k3, 3);
    lemma_moves_ordered(s, acts, id, k3, 3, k4, 4);
    lemma_moves_ordered(s, acts, id, k4, 4, k5, 5);
    lemma_terms_stable(s, acts, id, k1 + 1);
    lemma_terms_stable(s, acts, id, k2 + 1);
    lemma_terms_stable(s, acts, id, k3 + 1);
    lemma_terms_stable(s, acts, id, k4 + 1);
    lemma_terms_stable(s, acts, id, k5 + 1);
    lemma_after_next(s, acts, k1);
    assert(acts[k1] is CreateOrder);
    assert(flow_step(s, acts, id, k1, 1));
    assert(flow_step(s, acts, id, k2, 2));
    assert(flow_step(s, acts, id, k3, 3));
    assert(flow_step(s, acts, id, k4, 4));
    assert(flow_step(s, acts, id, k5, 5));
    assert forall|k: int| !#[trigger] disputed_at(s, acts, id, k) by {
        if disputed_at(s, acts, id, k) {
            lemma_after_next(s, acts, k);
            assert(!(acts[k] is Init));
            lemma_progress_step(after(s, acts, k), acts[k], id);
            lemma_progress_monotone(s, acts, id, k + 1, n);
            lemma_after_all(s, acts);
        }
    }
}

} // verus!
