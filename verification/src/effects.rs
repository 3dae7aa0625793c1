use vstd::prelude::*;

use crate::model::{
    accept_step, approve_step, create_step, dispute_step, mark_paid_step, order_ids,
    order_lookup, submit_step, supplier_lookup, valid, verify_step, FlowState,
};
use crate::types::{AidFlowError, OrderStatus, OrderView, SupplierView};

verus! {

/// The orders other than `id` are the same in both states, and so is the
/// number of orders.
pub open spec fn others_unchanged(s: FlowState, t: FlowState, id: u64) -> bool {
    &&& t.orders.len() == s.orders.len()
    &&& forall|j: int| 0 <= j < s.orders.len() && j != id ==> #[trigger] t.orders[j] == s.orders[j]
}

/// The order `id` keeps everything but its status and delivery proof.
pub open spec fn terms_unchanged(s: FlowState, t: FlowState, id: u64) -> bool {
    let o = s.orders[id as int];
    let p = t.orders[id as int];
    &&& p.id == o.id
    &&& p.ngo == o.ngo
    &&& p.supplier == o.supplier
    &&& p.description == o.description
    &&& p.usdc_amount == o.usdc_amount
    &&& p.created_at == o.created_at
    &&& p.verifier == o.verifier
}

/// What a request that moves one order leaves alone: the other orders, the
/// terms and (unless it says otherwise) the proof of the moved order, the
/// supplier records and the administrator.
pub open spec fn only_status_moved(s: FlowState, t: FlowState, id: u64) -> bool {
    &&& terms_unchanged(s, t, id)
    &&& others_unchanged(s, t, id)
    &&& t.orders[id as int].delivery_proof == s.orders[id as int].delivery_proof
    &&& t.suppliers == s.suppliers
    &&& t.admin == s.admin
}

/// Creation succeeds exactly when the ledger is initialized, the supplier has
/// an approved record and the amount is positive, whatever the existing orders
/// are, and is refused otherwise with the first of these that fails. It
/// appends one order that stores exactly the given arguments, with id the
/// former number of orders, status `Created` and an empty delivery proof, and
/// changes nothing else.
pub proof fn lemma_create_effect(
    s: FlowState,
    ngo: Seq<char>,
    supplier: Seq<char>,
    description: Seq<char>,
    usdc_amount: i128,
    verifier: Seq<char>,
    now: u64,
)
    requires
        s.orders.len() < u64::MAX,
    ensures
        create_step(s, ngo, supplier, description, usdc_amount, verifier, now) is Ok <==> (
        s.admin is Some && s.suppliers.contains_key(supplier) && s.suppliers[supplier].is_approved
            && usdc_amount > 0),
        s.admin is None ==> create_step(s, ngo, supplier, description, usdc_amount, verifier, now)
            == Err::<FlowState, AidFlowError>(AidFlowError::NotInitialized),
        s.admin is Some && !s.suppliers.contains_key(supplier) ==> create_step(
            s,
            ngo,
            supplier,
            description,
            usdc_amount,
            verifier,
            now,
        ) == Err::<FlowState, AidFlowError>(AidFlowError::SupplierNotApproved),
        s.admin is Some && s.suppliers.contains_key(supplier) && !s.suppliers[supplier].is_approved
            ==> create_step(s, ngo, supplier, description, usdc_amount, verifier, now) == Err::<
            FlowState,
            AidFlowError,
        >(AidFlowError::SupplierNotActive),
        s.admin is Some && s.suppliers.contains_key(supplier) && s.suppliers[supplier].is_approved
            && usdc_amount <= 0 ==> create_step(
            s,
            ngo,
            supplier,
            description,
            usdc_amount,
            verifier,
            now,
        ) == Err::<FlowState, AidFlowError>(AidFlowError::NonPositiveAmount),
        create_step(s, ngo, supplier, description, usdc_amount, verifier, now) matches Ok(t) ==> {
            let o = t.orders[s.orders.len() as int];
            &&& t.orders.len() == s.orders.len() + 1
            &&& forall|j: int| 0 <= j < s.orders.len() ==> #[trigger] t.orders[j] == s.orders[j]
            &&& o.id == s.orders.len()
            &&& o.ngo == ngo
            &&& o.supplier == supplier
            &&& o.description == description
            &&& o.usdc_amount == usdc_amount
            &&& o.status == OrderStatus::Created
            &&& o.created_at == now
            &&& o.delivery_proof.len() == 0
            &&& o.verifier == verifier
            &&& t.suppliers == s.suppliers
            &&& t.admin == s.admin
        },
{
}

/// Approval succeeds exactly when the ledger is initialized, whatever the
/// orders and the other records are. It writes an approved record under the
/// given name that keeps the wallet's running total (zero for a new wallet),
/// and leaves the orders and all other records alone.
pub proof fn lemma_approve_effect(s: FlowState, name: Seq<char>, wallet: Seq<char>)
    ensures
        approve_step(s, name, wallet) is Ok <==> s.admin is Some,
        s.admin is None ==> approve_step(s, name, wallet) == Err::<FlowState, AidFlowError>(
            AidFlowError::NotInitialized,
        ),
        approve_step(s, name, wallet) matches Ok(t) ==> {
            &&& t.orders == s.orders
            &&& t.admin == s.admin
            &&& t.suppliers.contains_key(wallet)
            &&& t.suppliers[wallet].wallet == wallet
            &&& t.suppliers[wallet].name == name
            &&& t.suppliers[wallet].is_approved
            &&& t.suppliers[wallet].total_paid == if s.suppliers.contains_key(wallet) {
                s.suppliers[wallet].total_paid
            } else {
                0
            }
            &&& forall|w: Seq<char>|
                w != wallet ==> (#[trigger] t.suppliers.contains_key(w) == s.suppliers.contains_key(w))
                    && (s.suppliers.contains_key(w) ==> t.suppliers[w] == s.suppliers[w])
        },
{
}

/// The refusals common to every request that names an order: an uninitialized
/// ledger, then an unknown id.
pub open spec fn order_refusal(s: FlowState, id: u64) -> Option<AidFlowError> {
    if s.admin is None {
        Some(AidFlowError::NotInitialized)
    } else if id >= s.orders.len() {
        Some(AidFlowError::OrderNotFound)
    } else {
        None
    }
}

/// Acceptance succeeds exactly when the order exists, is `Created` and the
/// caller is its supplier, whatever the other orders are; it makes the order
/// `Accepted` and changes nothing else.
pub proof fn lemma_accept_effect(s: FlowState, supplier: Seq<char>, id: u64)
    ensures
        accept_step(s, supplier, id) is Ok <==> (s.admin is Some && id < s.orders.len()
            && s.orders[id as int].supplier == supplier && s.orders[id as int].status
            == OrderStatus::Created),
        order_refusal(s, id) matches Some(e) ==> accept_step(s, supplier, id) == Err::<
            FlowState,
            AidFlowError,
        >(e),
        order_refusal(s, id) is None && s.orders[id as int].supplier != supplier ==> accept_step(
            s,
            supplier,
            id,
        ) == Err::<FlowState, AidFlowError>(AidFlowError::NotDesignatedSupplier),
        order_refusal(s, id) is None && s.orders[id as int].supplier == supplier
            && s.orders[id as int].status != OrderStatus::Created ==> accept_step(s, supplier, id)
            == Err::<FlowState, AidFlowError>(AidFlowError::OrderNotCreated),
        accept_step(s, supplier, id) matches Ok(t) ==> {
            &&& t.orders[id as int].status == OrderStatus::Accepted
            &&& only_status_moved(s, t, id)
        },
{
}

/// Delivery succeeds exactly when the order exists, is `Accepted` and the
/// caller is its supplier, whatever the other orders are; the order becomes
/// `Delivered` and keeps exactly the submitted proof, and nothing else
/// changes.
pub proof fn lemma_submit_effect(s: FlowState, supplier: Seq<char>, id: u64, proof: Seq<char>)
    ensures
        submit_step(s, supplier, id, proof) is Ok <==> (s.admin is Some && id < s.orders.len()
            && s.orders[id as int].supplier == supplier && s.orders[id as int].status
            == OrderStatus::Accepted),
        order_refusal(s, id) matches Some(e) ==> submit_step(s, supplier, id, proof) == Err::<
            FlowState,
            AidFlowError,
        >(e),
        order_refusal(s, id) is None && s.orders[id as int].supplier != supplier ==> submit_step(
            s,
            supplier,
            id,
            proof,
        ) == Err::<FlowState, AidFlowError>(AidFlowError::NotDesignatedSupplier),
        order_refusal(s, id) is None && s.orders[id as int].supplier == supplier
            && s.orders[id as int].status != OrderStatus::Accepted ==> submit_step(
            s,
            supplier,
            id,
            proof,
        ) == Err::<FlowState, AidFlowError>(AidFlowError::OrderNotAccepted),
        submit_step(s, supplier, id, proof) matches Ok(t) ==> {
            &&& t.orders[id as int].delivery_proof == proof
            &&& t.orders[id as int].status == OrderStatus::Delivered
            &&& terms_unchanged(s, t, id)
            &&& others_unchanged(s, t, id)
            &&& t.suppliers == s.suppliers
            &&& t.admin == s.admin
        },
{
}

/// Verification succeeds exactly when the order exists, is `Delivered` and the
/// caller is its verifier, whatever the other orders are; it makes the order
/// `Verified` and changes nothing else.
pub proof fn lemma_verify_effect(s: FlowState, verifier: Seq<char>, id: u64)
    ensures
        verify_step(s, verifier, id) is Ok <==> (s.admin is Some && id < s.orders.len()
            && s.orders[id as int].verifier == verifier && s.orders[id as int].status
            == OrderStatus::Delivered),
        order_refusal(s, id) matches Some(e) ==> verify_step(s, verifier, id) == Err::<
            FlowState,
            AidFlowError,
        >(e),
        order_refusal(s, id) is None && s.orders[id as int].verifier != verifier ==> verify_step(
            s,
            verifier,
            id,
        ) == Err::<FlowState, AidFlowError>(AidFlowError::NotAuthorizedVerifier),
        order_refusal(s, id) is None && s.orders[id as int].verifier == verifier
            && s.orders[id as int].status != OrderStatus::Delivered ==> verify_step(s, verifier, id)
            == Err::<FlowState, AidFlowError>(AidFlowError::DeliveryNotSubmitted),
        verify_step(s, verifier, id) matches Ok(t) ==> {
            &&& t.orders[id as int].status == OrderStatus::Verified
            &&& only_status_moved(s, t, id)
        },
{
}

/// Payment succeeds exactly when the order exists, is `Verified`, the caller
/// is its NGO and the supplier's running total plus the amount fits in
/// `i128`, whatever the other orders are. It makes the order `Paid`, adds its
/// amount to its supplier's running total, and changes nothing else.
pub proof fn lemma_mark_paid_effect(s: FlowState, ngo: Seq<char>, id: u64)
    requires
        valid(s),
    ensures
        mark_paid_step(s, ngo, id) is Ok <==> (s.admin is Some && id < s.orders.len()
            && s.orders[id as int].ngo == ngo && s.orders[id as int].status
            == OrderStatus::Verified && s.suppliers[s.orders[id as int].supplier].total_paid
            + s.orders[id as int].usdc_amount <= i128::MAX),
        order_refusal(s, id) matches Some(e) ==> mark_paid_step(s, ngo, id) == Err::<
            FlowState,
            AidFlowError,
        >(e),
        order_refusal(s, id) is None && s.orders[id as int].ngo != ngo ==> mark_paid_step(
            s,
            ngo,
            id,
        ) == Err::<FlowState, AidFlowError>(AidFlowError::NotOriginatingNgo),
        order_refusal(s, id) is None && s.orders[id as int].ngo == ngo && s.orders[id as int].status
            != OrderStatus::Verified ==> mark_paid_step(s, ngo, id) == Err::<
            FlowState,
            AidFlowError,
        >(AidFlowError::DeliveryNotVerified),
        order_refusal(s, id) is None && s.orders[id as int].ngo == ngo && s.orders[id as int].status
            == OrderStatus::Verified && s.suppliers[s.orders[id as int].supplier].total_paid
            + s.orders[id as int].usdc_amount > i128::MAX ==> mark_paid_step(s, ngo, id) == Err::<
            FlowState,
            AidFlowError,
        >(AidFlowError::PaymentTotalOverflow),
        mark_paid_step(s, ngo, id) matches Ok(t) ==> {
            let w = s.orders[id as int].supplier;
            &&& t.orders[id as int].status == OrderStatus::Paid
            &&& t.orders[id as int].delivery_proof == s.orders[id as int].delivery_proof
            &&& terms_unchanged(s, t, id)
            &&& others_unchanged(s, t, id)
            &&& t.suppliers.contains_key(w)
            &&& t.suppliers[w].total_paid == s.suppliers[w].total_paid + s.orders[
                id as int
            ].usdc_amount
            &&& t.suppliers[w].wallet == s.suppliers[w].wallet
            &&& t.suppliers[w].name == s.suppliers[w].name
            &&& t.suppliers[w].is_approved == s.suppliers[w].is_approved
            &&& forall|v: Seq<char>|
                v != w ==> (#[trigger] t.suppliers.contains_key(v) == s.suppliers.contains_key(v))
                    && (s.suppliers.contains_key(v) ==> t.suppliers[v] == s.suppliers[v])
            &&& t.suppliers.dom() == s.suppliers.dom()
            &&& t.admin == s.admin
        },
{
    if s.admin is Some && id < s.orders.len() {
        assert(s.suppliers.contains_key(s.orders[id as int].supplier));
        assert(s.suppliers[s.orders[id as int].supplier].total_paid >= 0);
    }
    if let Ok(t) = mark_paid_step(s, ngo, id) {
        assert(t.suppliers.dom() =~= s.suppliers.dom());
    }
}

/// A dispute succeeds exactly when the order exists, is neither `Paid` nor
/// `Cancelled`, and the caller is its NGO, its supplier or its verifier,
/// whatever the other orders are; it makes the order `Disputed` and changes
/// nothing else.
pub proof fn lemma_dispute_effect(s: FlowState, caller: Seq<char>, id: u64)
    ensures
        dispute_step(s, caller, id) is Ok <==> (s.admin is Some && id < s.orders.len() && (caller
            == s.orders[id as int].ngo || caller == s.orders[id as int].supplier || caller
            == s.orders[id as int].verifier) && s.orders[id as int].status != OrderStatus::Paid
            && s.orders[id as int].status != OrderStatus::Cancelled),
        order_refusal(s, id) matches Some(e) ==> dispute_step(s, caller, id) == Err::<
            FlowState,
            AidFlowError,
        >(e),
        order_refusal(s, id) is None && caller != s.orders[id as int].ngo && caller
            != s.orders[id as int].supplier && caller != s.orders[id as int].verifier
            ==> dispute_step(s, caller, id) == Err::<FlowState, AidFlowError>(
            AidFlowError::NotAParty,
        ),
        order_refusal(s, id) is None && (caller == s.orders[id as int].ngo || caller
            == s.orders[id as int].supplier || caller == s.orders[id as int].verifier) && (
        s.orders[id as int].status == OrderStatus::Paid || s.orders[id as int].status
            == OrderStatus::Cancelled) ==> dispute_step(s, caller, id) == Err::<
            FlowState,
            AidFlowError,
        >(AidFlowError::OrderCompleted),
        dispute_step(s, caller, id) matches Ok(t) ==> {
            &&& t.orders[id as int].status == OrderStatus::Disputed
            &&& only_status_moved(s, t, id)
        },
{
}

/// Reads on an initialized ledger: an existing order reads back as stored, an
/// unknown id is refused; a recorded supplier reads back as recorded, an
/// unknown wallet is refused; the order ids are `0` up to the number of orders,
/// in ascending order (as long as they fit in `u64`). On an uninitialized ledger every read is refused.
pub proof fn lemma_read_effect(s: FlowState, id: u64, wallet: Seq<char>)
    ensures
        s.admin is Some && id < s.orders.len() ==> order_lookup(s, id) == Ok::<
            OrderView,
            AidFlowError,
        >(s.orders[id as int]),
        s.admin is Some && id >= s.orders.len() ==> order_lookup(s, id) == Err::<
            OrderView,
            AidFlowError,
        >(AidFlowError::OrderNotFound),
        s.admin is Some && s.suppliers.contains_key(wallet) ==> supplier_lookup(s, wallet) == Ok::<
            SupplierView,
            AidFlowError,
        >(s.suppliers[wallet]),
        s.admin is Some && !s.suppliers.contains_key(wallet) ==> supplier_lookup(s, wallet)
            == Err::<SupplierView, AidFlowError>(AidFlowError::SupplierNotFound),
        s.admin is Some && s.orders.len() <= u64::MAX ==> (order_ids(s) matches Ok(ids) && ids.len() == s.orders.len() && forall|
            i: int,
        | 0 <= i < ids.len() ==> #[trigger] ids[i] == i),
        s.admin is None ==> order_lookup(s, id) == Err::<OrderView, AidFlowError>(
            AidFlowError::NotInitialized,
        ) && supplier_lookup(s, wallet) == Err::<SupplierView, AidFlowError>(
            AidFlowError::NotInitialized,
        ) && order_ids(s) == Err::<Seq<u64>, AidFlowError>(AidFlowError::NotInitialized),
{
}

} // verus!
