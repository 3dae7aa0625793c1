use vstd::prelude::*;

use crate::flow::{parts_ok, parts_view, supplier_map, wallets_distinct, AidFlow};
use crate::model::{
    approve_step, approved_record, create_step, is_party, mark_paid_step, new_order, order_ids,
    order_lookup, paid_sum, paid_to, run, step, supplier_lookup, uninitialized, valid, Action, FlowState,
};
use crate::types::{
    Address, AidFlowError, OrderStatus, OrderView, PurchaseOrder, Supplier, SupplierView,
};

verus! {

/// Changing one order changes each wallet's sum of paid orders by what that
/// order pays it after, less what it paid it before.
pub proof fn lemma_paid_sum_update(orders: Seq<OrderView>, i: int, o: OrderView, w: Seq<char>)
    requires
        0 <= i < orders.len(),
    ensures
        paid_sum(orders.update(i, o), w) == paid_sum(orders, w) - paid_to(orders[i], w) + paid_to(
            o,
            w,
        ),
    decreases orders.len(),
{
    let u = orders.update(i, o);
    if i == orders.len() - 1 {
        assert(u.drop_last() =~= orders.drop_last());
    } else {
        assert(u.drop_last() =~= orders.drop_last().update(i, o));
        lemma_paid_sum_update(orders.drop_last(), i, o, w);
    }
}

/// Appending an order adds what it pays the wallet.
pub proof fn lemma_paid_sum_push(orders: Seq<OrderView>, o: OrderView, w: Seq<char>)
    ensures
        paid_sum(orders.push(o), w) == paid_sum(orders, w) + paid_to(o, w),
{
    assert(orders.push(o).drop_last() =~= orders);
}

/// A wallet that supplies none of the orders has been paid nothing.
pub proof fn lemma_paid_sum_absent(orders: Seq<OrderView>, w: Seq<char>)
    requires
        forall|i: int| 0 <= i < orders.len() ==> (#[trigger] orders[i]).supplier != w,
    ensures
        paid_sum(orders, w) == 0,
    decreases orders.len(),
{
    if orders.len() > 0 {
        assert forall|i: int| 0 <= i < orders.len() - 1 implies (
        #[trigger] orders.drop_last()[i]).supplier != w by {
            assert(orders.drop_last()[i] == orders[i]);
        }
        lemma_paid_sum_absent(orders.drop_last(), w);
        assert(orders.last() == orders[orders.len() - 1]);
    }
}

/// With positive amounts, the sum over the first `k` orders is at most the sum
/// over all of them.
pub proof fn lemma_paid_sum_prefix_le(orders: Seq<OrderView>, k: int, w: Seq<char>)
    requires
        0 <= k <= orders.len(),
        forall|i: int| 0 <= i < orders.len() ==> (#[trigger] orders[i]).usdc_amount > 0,
    ensures
        paid_sum(orders.take(k), w) <= paid_sum(orders, w),
    decreases orders.len(),
{
    if k == orders.len() {
        assert(orders.take(k) =~= orders);
    } else {
        let d = orders.drop_last();
        assert forall|i: int| 0 <= i < d.len() implies (#[trigger] d[i]).usdc_amount > 0 by {
            assert(d[i] == orders[i]);
        }
        lemma_paid_sum_prefix_le(d, k, w);
        assert(d.take(k) =~= orders.take(k));
        assert(orders.last() == orders[orders.len() - 1]);
    }
}

/// Every request keeps the ledger's invariant: order ids are the positions of
/// the orders, amounts are positive, every order's supplier has a record, and
/// every supplier record is approved, keyed by its own wallet and carries a
/// running total equal to the sum of the amounts of its paid orders. (A new
/// order needs room for one more id in `u64`.)
pub proof fn lemma_step_preserves_valid(s: FlowState, a: Action)
    requires
        valid(s),
        a is CreateOrder ==> s.orders.len() < u64::MAX,
    ensures
        step(s, a) matches Ok(t) ==> valid(t),
{
    match a {
        Action::Init { .. } => {},
        Action::ApproveSupplier { name, wallet } => {
            if let Ok(t) = step(s, a) {
                if !s.suppliers.contains_key(wallet) {
                    assert forall|i: int| 0 <= i < s.orders.len() implies (
                    #[trigger] s.orders[i]).supplier != wallet by {
                        assert(s.suppliers.contains_key(s.orders[i].supplier));
                    }
                    lemma_paid_sum_absent(s.orders, wallet);
                }
            }
        },
        Action::CreateOrder { .. } => {
            if let Ok(t) = step(s, a) {
                let o = t.orders.last();
                assert(t.orders =~= s.orders.push(o));
                assert forall|i: int| 0 <= i < t.orders.len() implies #[trigger] t.orders[i].id
                    == i by {
                    if i < s.orders.len() {
                        assert(t.orders[i] == s.orders[i]);
                    }
                }
                assert forall|i: int|
                    0 <= i < t.orders.len() implies t.suppliers.contains_key(
                    #[trigger] t.orders[i].supplier,
                ) by {
                    if i < s.orders.len() {
                        assert(t.orders[i] == s.orders[i]);
                    }
                }
                assert forall|i: int| 0 <= i < t.orders.len() implies #[trigger] t.orders[
                    i
                ].usdc_amount > 0 by {
                    if i < s.orders.len() {
                        assert(t.orders[i] == s.orders[i]);
                    }
                }
                assert forall|w: Seq<char>| #[trigger]
                    t.suppliers.contains_key(w) implies t.suppliers[w].total_paid == paid_sum(
                    t.orders,
                    w,
                ) by {
                    lemma_paid_sum_push(s.orders, o, w);
                }
            }
        },
        Action::AcceptOrder { .. } => {
            lemma_order_update_keeps_valid(s, a);
        },
        Action::SubmitDelivery { .. } => {
            lemma_order_update_keeps_valid(s, a);
        },
        Action::VerifyDelivery { .. } => {
            lemma_order_update_keeps_valid(s, a);
        },
        Action::MarkPaid { .. } => {
            lemma_order_update_keeps_valid(s, a);
        },
        Action::RaiseDispute { .. } => {
            lemma_order_update_keeps_valid(s, a);
        },
    }
}

/// A request that names an order changes at most that order, and only its
/// status and delivery proof; the supplier list changes only by a payment.
proof fn lemma_order_update_keeps_valid(s: FlowState, a: Action)
    requires
        valid(s),
        a is AcceptOrder || a is SubmitDelivery || a is VerifyDelivery || a is MarkPaid
            || a is RaiseDispute,
    ensures
        step(s, a) matches Ok(t) ==> valid(t),
{
    if let Ok(t) = step(s, a) {
        let id = named_order(a).unwrap();
        let o = s.orders[id as int];
        let p = t.orders[id as int];
        assert(t.orders.len() == s.orders.len());
        assert(t.orders =~= s.orders.update(id as int, p));
        assert forall|i: int| 0 <= i < t.orders.len() implies {
            &&& #[trigger] t.orders[i].id == s.orders[i].id
            &&& t.orders[i].supplier == s.orders[i].supplier
            &&& t.orders[i].usdc_amount == s.orders[i].usdc_amount
        } by {}
        assert forall|w: Seq<char>| #[trigger] s.suppliers.contains_key(w) implies t.suppliers.contains_key(w) by {}
        assert forall|i: int| 0 <= i < t.orders.len() implies #[trigger] t.orders[i].id == i by {
            assert(t.orders[i].id == s.orders[i].id);
        }
        assert forall|i: int| 0 <= i < t.orders.len() implies #[trigger] t.orders[i].usdc_amount > 0 by {
            assert(t.orders[i].usdc_amount == s.orders[i].usdc_amount);
        }
        assert forall|i: int|
            0 <= i < t.orders.len() implies t.suppliers.contains_key(
            #[trigger] t.orders[i].supplier,
        ) by {
            assert(t.orders[i].supplier == s.orders[i].supplier);
            assert(s.suppliers.contains_key(s.orders[i].supplier));
        }
        if a is MarkPaid {
            assert(s.suppliers.contains_key(o.supplier));
        }
        assert forall|w: Seq<char>| #[trigger]
            t.suppliers.contains_key(w) implies t.suppliers[w].total_paid == paid_sum(
            t.orders,
            w,
        ) by {
            lemma_paid_sum_update(s.orders, id as int, p, w);
            assert(s.suppliers.contains_key(w));
        }
    }
}

/// The lifecycle of an order: `Created` to `Accepted` to `Delivered` to
/// `Verified` to `Paid`, and from any state but `Paid` and `Cancelled` to
/// `Disputed`.
pub open spec fn lifecycle_edge(from: OrderStatus, to: OrderStatus) -> bool {
    ||| from == OrderStatus::Created && to == OrderStatus::Accepted
    ||| from == OrderStatus::Accepted && to == OrderStatus::Delivered
    ||| from == OrderStatus::Delivered && to == OrderStatus::Verified
    ||| from == OrderStatus::Verified && to == OrderStatus::Paid
    ||| from != OrderStatus::Paid && from != OrderStatus::Cancelled && to
        == OrderStatus::Disputed
}

/// The order that a request names, if it names one.
pub open spec fn named_order(a: Action) -> Option<u64> {
    match a {
        Action::AcceptOrder { order_id, .. } => Some(order_id),
        Action::SubmitDelivery { order_id, .. } => Some(order_id),
        Action::VerifyDelivery { order_id, .. } => Some(order_id),
        Action::MarkPaid { order_id, .. } => Some(order_id),
        Action::RaiseDispute { order_id, .. } => Some(order_id),
        _ => None,
    }
}

/// The terms agreed when an order was created: all of it but its status and
/// its delivery proof.
pub open spec fn same_terms(o: OrderView, p: OrderView) -> bool {
    &&& o.id == p.id
    &&& o.ngo == p.ngo
    &&& o.supplier == p.supplier
    &&& o.description == p.description
    &&& o.usdc_amount == p.usdc_amount
    &&& o.created_at == p.created_at
    &&& o.verifier == p.verifier
}

/// Apart from initialization, which starts a new ledger, no request removes an
/// order or changes the terms of one; a request that names an order changes no
/// other order, and every other request leaves all existing orders as they
/// were.
pub proof fn lemma_orders_kept(s: FlowState, a: Action)
    requires
        !(a is Init),
    ensures
        step(s, a) matches Ok(t) ==> {
            &&& t.orders.len() >= s.orders.len()
            &&& forall|i: int|
                0 <= i < s.orders.len() ==> same_terms(#[trigger] t.orders[i], s.orders[i])
            &&& forall|i: int|
                0 <= i < s.orders.len() && named_order(a) != Some(i as u64) ==> #[trigger] t.orders[i]
                    == s.orders[i]
        },
{
}

/// Apart from initialization, every change of an order's status follows the
/// lifecycle: each request moves at most one order, along one edge.
pub proof fn lemma_status_follows_lifecycle(s: FlowState, a: Action, i: int)
    requires
        !(a is Init),
        0 <= i < s.orders.len(),
    ensures
        step(s, a) matches Ok(t) ==> t.orders[i].status == s.orders[i].status || lifecycle_edge(
            s.orders[i].status,
            t.orders[i].status,
        ),
{
}

/// Apart from initialization, an order that is `Paid` or `Cancelled` never
/// changes again.
pub proof fn lemma_completed_orders_final(s: FlowState, a: Action, i: int)
    requires
        !(a is Init),
        0 <= i < s.orders.len(),
        s.orders[i].status == OrderStatus::Paid || s.orders[i].status == OrderStatus::Cancelled,
    ensures
        step(s, a) matches Ok(t) ==> t.orders[i] == s.orders[i],
{
}

/// Only the parties named in an order move it: its supplier accepts it and
/// hands in the delivery, its verifier confirms receipt, its NGO marks it paid,
/// and only one of these three may dispute it.
pub proof fn lemma_only_parties_act(s: FlowState, a: Action)
    requires
        named_order(a) is Some,
    ensures
        step(s, a) is Ok ==> {
            let o = s.orders[named_order(a).unwrap() as int];
            match a {
                Action::AcceptOrder { supplier, .. } => supplier == o.supplier,
                Action::SubmitDelivery { supplier, .. } => supplier == o.supplier,
                Action::VerifyDelivery { verifier, .. } => verifier == o.verifier,
                Action::MarkPaid { ngo, .. } => ngo == o.ngo,
                Action::RaiseDispute { caller, .. } => is_party(o, caller),
                _ => true,
            }
        },
{
}

/// A supplier's running total grows by exactly the amount of each order marked
/// paid for it and changes in no other way: approving the supplier again keeps
/// it. Supplier records are never removed, apart from initialization.
pub proof fn lemma_payment_totals(s: FlowState, a: Action, w: Seq<char>)
    requires
        valid(s),
        !(a is Init),
        s.suppliers.contains_key(w),
    ensures
        step(s, a) matches Ok(t) ==> {
            &&& t.suppliers.contains_key(w)
            &&& t.suppliers[w].total_paid == match a {
                Action::MarkPaid { order_id, .. } => if s.orders[order_id as int].supplier == w {
                    s.suppliers[w].total_paid + s.orders[order_id as int].usdc_amount
                } else {
                    s.suppliers[w].total_paid as int
                },
                _ => s.suppliers[w].total_paid as int,
            }
        },
{
}

/// The running total of every supplier is the sum of the amounts of its paid
/// orders, in every state reachable from a fresh deployment (for fewer than
/// `u64::MAX` requests, so that order ids fit in `u64`).
pub proof fn lemma_totals_are_paid_sums(acts: Seq<Action>, w: Seq<char>)
    requires
        acts.len() < u64::MAX,
        run(uninitialized(), acts).suppliers.contains_key(w),
    ensures
        run(uninitialized(), acts).suppliers[w].total_paid == paid_sum(
            run(uninitialized(), acts).orders,
            w,
        ),
{
    lemma_reachable_states_valid(acts);
}

/// An order that was just created can be read back by the id that creation
/// returned, with the given terms, in the `Created` state and with an empty
/// delivery proof; its id is listed last among the order ids.
pub proof fn lemma_created_order_readable(
    s: FlowState,
    ngo: Seq<char>,
    supplier: Seq<char>,
    description: Seq<char>,
    usdc_amount: i128,
    verifier: Seq<char>,
    now: u64,
)
    requires
        s.orders.len() < u64::MAX,
    ensures
        create_step(s, ngo, supplier, description, usdc_amount, verifier, now) matches Ok(t) ==> {
            let id = s.orders.len() as u64;
            &&& order_lookup(t, id) == Ok::<OrderView, AidFlowError>(
                new_order(s, ngo, supplier, description, usdc_amount, verifier, now),
            )
            &&& order_lookup(t, id) matches Ok(o) && o.id == id && o.status == OrderStatus::Created
                && o.delivery_proof.len() == 0 && o.created_at == now
            &&& order_ids(t) == Ok::<Seq<u64>, AidFlowError>(order_ids(s).unwrap().push(id))
        },
{
    if let Ok(t) = create_step(s, ngo, supplier, description, usdc_amount, verifier, now) {
        assert(order_ids(t).unwrap() =~= order_ids(s).unwrap().push(s.orders.len() as u64));
    }
}

/// After a supplier is approved, its record reads back as approved, with the
/// given name and the running total it had before (zero for a new wallet).
pub proof fn lemma_approved_supplier_readable(s: FlowState, name: Seq<char>, wallet: Seq<char>)
    ensures
        approve_step(s, name, wallet) matches Ok(t) ==> {
            &&& supplier_lookup(t, wallet) == Ok::<SupplierView, AidFlowError>(
                approved_record(s, name, wallet),
            )
            &&& t.suppliers[wallet].total_paid == if s.suppliers.contains_key(wallet) {
                s.suppliers[wallet].total_paid as int
            } else {
                0
            }
            &&& t.suppliers[wallet].name == name
            &&& t.suppliers[wallet].is_approved
            &&& t.orders == s.orders
        },
{
}

/// Before initialization every request but initialization is refused, and so
/// is every read.
pub proof fn lemma_uninitialized_refuses(a: Action, order_id: u64, wallet: Seq<char>)
    requires
        !(a is Init),
    ensures
        step(uninitialized(), a) == Err::<FlowState, AidFlowError>(AidFlowError::NotInitialized),
        order_lookup(uninitialized(), order_id) == Err::<OrderView, AidFlowError>(
            AidFlowError::NotInitialized,
        ),
        supplier_lookup(uninitialized(), wallet) == Err::<SupplierView, AidFlowError>(
            AidFlowError::NotInitialized,
        ),
        order_ids(uninitialized()) == Err::<Seq<u64>, AidFlowError>(AidFlowError::NotInitialized),
{
}

/// Saving a ledger as its administrator, its orders and its supplier records
/// and rebuilding it from them gives back the same ledger: the saved parts
/// always form a ledger, and they stand for the state that was saved.
pub proof fn lemma_saved_parts_reload(
    f: AidFlow,
    admin: Option<Address>,
    orders: Seq<PurchaseOrder>,
    suppliers: Seq<Supplier>,
)
    requires
        f.wf(),
        match admin {
            Some(a) => f@.admin == Some(a@),
            None => f@.admin is None,
        },
        orders.map_values(|o: PurchaseOrder| o@) == f@.orders,
        wallets_distinct(suppliers.map_values(|x: Supplier| x@)),
        supplier_map(suppliers.map_values(|x: Supplier| x@)) == f@.suppliers,
    ensures
        parts_ok(admin, orders, suppliers),
        parts_view(admin, orders, suppliers) == f@,
{
    AidFlow::lemma_wf_valid(f);
    assert(parts_view(admin, orders, suppliers) == f@);
}

/// A disputed order is frozen: apart from initialization, no request changes
/// it, save a further dispute, which leaves it as it is.
pub proof fn lemma_disputed_orders_frozen(s: FlowState, a: Action, i: int)
    requires
        !(a is Init),
        0 <= i < s.orders.len(),
        s.orders[i].status == OrderStatus::Disputed,
    ensures
        step(s, a) matches Ok(t) ==> t.orders[i] == s.orders[i],
{
    if let Ok(t) = step(s, a) {
        lemma_orders_kept(s, a);
        if let Action::RaiseDispute { order_id, .. } = a {
            if order_id as int == i {
                assert(t.orders[i] =~= s.orders[i]);
            }
        }
    }
}

/// Only approved suppliers are paid: an order can be marked paid only when its
/// supplier has an approved record, and that record is the one credited.
pub proof fn lemma_only_approved_suppliers_paid(s: FlowState, ngo: Seq<char>, order_id: u64)
    requires
        valid(s),
    ensures
        mark_paid_step(s, ngo, order_id) matches Ok(t) ==> {
            let w = s.orders[order_id as int].supplier;
            &&& s.suppliers.contains_key(w)
            &&& s.suppliers[w].is_approved
            &&& t.suppliers[w].is_approved
            &&& t.suppliers[w].total_paid == s.suppliers[w].total_paid + s.orders[
                order_id as int
            ].usdc_amount
        },
{
    if let Ok(t) = mark_paid_step(s, ngo, order_id) {
        assert(s.suppliers.contains_key(s.orders[order_id as int].supplier));
    }
}

/// A request adds at most one order.
proof fn lemma_run_order_count(s: FlowState, acts: Seq<Action>)
    ensures
        run(s, acts).orders.len() <= s.orders.len() + acts.len(),
    decreases acts.len(),
{
    if acts.len() > 0 {
        lemma_run_order_count(s, acts.drop_last());
    }
}

/// Every state that a fresh deployment reaches through any sequence of
/// requests keeps the invariant (for fewer than `u64::MAX` requests, so that
/// order ids fit in `u64`).
pub proof fn lemma_reachable_states_valid(acts: Seq<Action>)
    requires
        acts.len() < u64::MAX,
    ensures
        valid(run(uninitialized(), acts)),
    decreases acts.len(),
{
    if acts.len() > 0 {
        let prefix = acts.drop_last();
        lemma_reachable_states_valid(prefix);
        lemma_run_order_count(uninitialized(), prefix);
        lemma_step_preserves_valid(run(uninitialized(), prefix), acts.last());
    } else {
        assert(uninitialized().suppliers.dom() =~= Set::<Seq<char>>::empty());
    }
}

/// Through any sequence of requests without initialization, an order that is
/// `Paid` or `Cancelled` stays exactly as it is.
pub proof fn lemma_completed_orders_final_in_runs(s: FlowState, acts: Seq<Action>, i: int)
    requires
        forall|k: int| 0 <= k < acts.len() ==> !(#[trigger] acts[k] is Init),
        0 <= i < s.orders.len(),
        s.orders[i].status == OrderStatus::Paid || s.orders[i].status == OrderStatus::Cancelled,
    ensures
        i < run(s, acts).orders.len(),
        run(s, acts).orders[i] == s.orders[i],
    decreases acts.len(),
{
    if acts.len() > 0 {
        let prefix = acts.drop_last();
        assert forall|k: int| 0 <= k < prefix.len() implies !(#[trigger] prefix[k] is Init) by {
            assert(prefix[k] == acts[k]);
        }
        lemma_completed_orders_final_in_runs(s, prefix, i);
        let before = run(s, prefix);
        assert(!(acts[acts.len() - 1] is Init));
        lemma_orders_kept(before, acts.last());
        lemma_completed_orders_final(before, acts.last(), i);
    }
}

/// What a well-formed ledger holds: order ids are positions, amounts are
/// positive, each order's supplier has an approved record keyed by its wallet
/// whose running total is the sum of the amounts of that supplier's paid
/// orders, and an uninitialized ledger holds nothing.
pub open spec fn ledger_facts(s: FlowState) -> bool {
    &&& s.admin is None ==> s.orders.len() == 0 && s.suppliers.dom().is_empty()
    &&& forall|i: int|
        0 <= i < s.orders.len() ==> {
            &&& (#[trigger] s.orders[i]).id == i
            &&& s.orders[i].usdc_amount > 0
            &&& s.suppliers.contains_key(s.orders[i].supplier)
            &&& s.suppliers[s.orders[i].supplier].is_approved
        }
    &&& forall|w: Seq<char>|
        #[trigger] s.suppliers.contains_key(w) ==> {
            &&& s.suppliers[w].wallet == w
            &&& s.suppliers[w].is_approved
            &&& s.suppliers[w].total_paid == paid_sum(s.orders, w)
        }
}

/// The invariant holds those facts.
pub proof fn lemma_valid_facts(s: FlowState)
    requires
        valid(s),
    ensures
        ledger_facts(s),
{
}

/// Every state reachable from a fresh deployment holds those facts (for fewer
/// than `u64::MAX` requests).
pub proof fn lemma_reachable_facts(acts: Seq<Action>)
    requires
        acts.len() < u64::MAX,
    ensures
        ledger_facts(run(uninitialized(), acts)),
{
    lemma_reachable_states_valid(acts);
}

} // verus!
