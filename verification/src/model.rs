use vstd::prelude::*;

use crate::types::{AidFlowError, OrderStatus, OrderView, SupplierView};

verus! {

/// The mathematical state of the ledger.
///
/// `admin` is `None` until the ledger is initialized. Orders are listed by id:
/// the order with id `i` stands at position `i`. Supplier records are keyed by
/// the supplier's wallet.
pub struct FlowState {
    pub admin: Option<Seq<char>>,
    pub orders: Seq<OrderView>,
    pub suppliers: Map<Seq<char>, SupplierView>,
}

/// A request to the ledger, with its arguments taken by value.
pub enum Action {
    Init { admin: Seq<char> },
    ApproveSupplier { name: Seq<char>, wallet: Seq<char> },
    CreateOrder {
        ngo: Seq<char>,
        supplier: Seq<char>,
        description: Seq<char>,
        usdc_amount: i128,
        verifier: Seq<char>,
        now: u64,
    },
    AcceptOrder { supplier: Seq<char>, order_id: u64 },
    SubmitDelivery { supplier: Seq<char>, order_id: u64, proof: Seq<char> },
    VerifyDelivery { verifier: Seq<char>, order_id: u64 },
    MarkPaid { ngo: Seq<char>, order_id: u64 },
    RaiseDispute { caller: Seq<char>, order_id: u64 },
}

/// The state of a freshly deployed ledger, before initialization.
pub open spec fn uninitialized() -> FlowState {
    FlowState { admin: None, orders: Seq::empty(), suppliers: Map::empty() }
}

/// What an order has paid to a wallet: its amount when it is `Paid` and the
/// wallet is its supplier, zero otherwise.
pub open spec fn paid_to(o: OrderView, wallet: Seq<char>) -> int {
    if o.supplier == wallet && o.status == OrderStatus::Paid {
        o.usdc_amount as int
    } else {
        0
    }
}

/// The sum of the amounts of the `Paid` orders whose supplier is the wallet.
pub open spec fn paid_sum(orders: Seq<OrderView>, wallet: Seq<char>) -> int
    decreases orders.len(),
{
    if orders.len() == 0 {
        0
    } else {
        paid_sum(orders.drop_last(), wallet) + paid_to(orders.last(), wallet)
    }
}

/// The invariant that every reachable state keeps. Among others, the running
/// total of every supplier is the sum of the amounts of its paid orders.
pub open spec fn valid(s: FlowState) -> bool {
    &&& s.orders.len() <= u64::MAX
    &&& s.admin is None ==> s.orders.len() == 0 && s.suppliers.dom().is_empty()
    &&& forall|i: int| 0 <= i < s.orders.len() ==> #[trigger] s.orders[i].id == i
    &&& forall|i: int| 0 <= i < s.orders.len() ==> #[trigger] s.orders[i].usdc_amount > 0
    &&& forall|i: int|
        0 <= i < s.orders.len() ==> s.suppliers.contains_key(#[trigger] s.orders[i].supplier)
    &&& forall|w: Seq<char>|
        #[trigger] s.suppliers.contains_key(w) ==> {
            &&& s.suppliers[w].wallet == w
            &&& s.suppliers[w].is_approved
            &&& s.suppliers[w].total_paid >= 0
            &&& s.suppliers[w].total_paid == paid_sum(s.orders, w)
        }
}

/// The order with the given id, or why there is none.
pub open spec fn order_lookup(s: FlowState, order_id: u64) -> Result<OrderView, AidFlowError> {
    if s.admin is None {
        Err(AidFlowError::NotInitialized)
    } else if order_id < s.orders.len() {
        Ok(s.orders[order_id as int])
    } else {
        Err(AidFlowError::OrderNotFound)
    }
}

/// The supplier record of the given wallet, or why there is none.
pub open spec fn supplier_lookup(s: FlowState, wallet: Seq<char>) -> Result<SupplierView, AidFlowError> {
    if s.admin is None {
        Err(AidFlowError::NotInitialized)
    } else if s.suppliers.contains_key(wallet) {
        Ok(s.suppliers[wallet])
    } else {
        Err(AidFlowError::SupplierNotFound)
    }
}

/// The ids of all orders, in ascending order.
pub open spec fn order_ids(s: FlowState) -> Result<Seq<u64>, AidFlowError> {
    if s.admin is None {
        Err(AidFlowError::NotInitialized)
    } else {
        Ok(Seq::new(s.orders.len(), |i: int| i as u64))
    }
}

/// The state with the order at `order_id` replaced.
pub open spec fn with_order(s: FlowState, order_id: u64, o: OrderView) -> FlowState {
    FlowState { orders: s.orders.update(order_id as int, o), ..s }
}

/// The same order in another lifecycle state.
pub open spec fn with_status(o: OrderView, status: OrderStatus) -> OrderView {
    OrderView { status, ..o }
}

/// Initialization sets the administrator and empties the order book and the
/// supplier list, whatever they held.
pub open spec fn init_step(s: FlowState, admin: Seq<char>) -> FlowState {
    FlowState { admin: Some(admin), orders: Seq::empty(), suppliers: Map::empty() }
}

/// The running total a wallet has so far: that of its record, or zero when it
/// has none.
pub open spec fn total_so_far(s: FlowState, wallet: Seq<char>) -> i128 {
    if s.suppliers.contains_key(wallet) {
        s.suppliers[wallet].total_paid
    } else {
        0
    }
}

/// The record that approval writes for a supplier: approved, under the given
/// name, keeping the wallet's running total of payments.
pub open spec fn approved_record(s: FlowState, name: Seq<char>, wallet: Seq<char>) -> SupplierView {
    SupplierView { wallet, name, is_approved: true, total_paid: total_so_far(s, wallet) }
}

/// Approving a supplier writes an approved record under the given name; a
/// wallet approved before keeps its running total of payments, a new one
/// starts from zero.
pub open spec fn approve_step(s: FlowState, name: Seq<char>, wallet: Seq<char>) -> Result<
    FlowState,
    AidFlowError,
> {
    if s.admin is None {
        Err(AidFlowError::NotInitialized)
    } else {
        Ok(FlowState { suppliers: s.suppliers.insert(wallet, approved_record(s, name, wallet)), ..s })
    }
}

/// The order that creation appends: its id is the number of orders so far.
pub open spec fn new_order(
    s: FlowState,
    ngo: Seq<char>,
    supplier: Seq<char>,
    description: Seq<char>,
    usdc_amount: i128,
    verifier: Seq<char>,
    now: u64,
) -> OrderView {
    OrderView {
        id: s.orders.len() as u64,
        ngo,
        supplier,
        description,
        usdc_amount,
        status: OrderStatus::Created,
        created_at: now,
        delivery_proof: Seq::empty(),
        verifier,
    }
}

/// Creating an order needs an approved supplier record and a positive amount.
pub open spec fn create_step(
    s: FlowState,
    ngo: Seq<char>,
    supplier: Seq<char>,
    description: Seq<char>,
    usdc_amount: i128,
    verifier: Seq<char>,
    now: u64,
) -> Result<FlowState, AidFlowError> {
    if s.admin is None {
        Err(AidFlowError::NotInitialized)
    } else if !s.suppliers.contains_key(supplier) {
        Err(AidFlowError::SupplierNotApproved)
    } else if !s.suppliers[supplier].is_approved {
        Err(AidFlowError::SupplierNotActive)
    } else if usdc_amount <= 0 {
        Err(AidFlowError::NonPositiveAmount)
    } else {
        Ok(
            FlowState {
                orders: s.orders.push(
                    new_order(s, ngo, supplier, description, usdc_amount, verifier, now),
                ),
                ..s
            },
        )
    }
}

/// The designated supplier accepts an order that is `Created`.
pub open spec fn accept_step(s: FlowState, supplier: Seq<char>, order_id: u64) -> Result<
    FlowState,
    AidFlowError,
> {
    match order_lookup(s, order_id) {
        Err(e) => Err(e),
        Ok(o) => if o.supplier != supplier {
            Err(AidFlowError::NotDesignatedSupplier)
        } else if o.status != OrderStatus::Created {
            Err(AidFlowError::OrderNotCreated)
        } else {
            Ok(with_order(s, order_id, with_status(o, OrderStatus::Accepted)))
        },
    }
}

/// The designated supplier hands in a proof of delivery for an `Accepted` order.
pub open spec fn submit_step(
    s: FlowState,
    supplier: Seq<char>,
    order_id: u64,
    proof: Seq<char>,
) -> Result<FlowState, AidFlowError> {
    match order_lookup(s, order_id) {
        Err(e) => Err(e),
        Ok(o) => if o.supplier != supplier {
            Err(AidFlowError::NotDesignatedSupplier)
        } else if o.status != OrderStatus::Accepted {
            Err(AidFlowError::OrderNotAccepted)
        } else {
            Ok(
                with_order(
                    s,
                    order_id,
                    OrderView { delivery_proof: proof, status: OrderStatus::Delivered, ..o },
                ),
            )
        },
    }
}

/// The order's verifier confirms receipt of a `Delivered` order.
pub open spec fn verify_step(s: FlowState, verifier: Seq<char>, order_id: u64) -> Result<
    FlowState,
    AidFlowError,
> {
    match order_lookup(s, order_id) {
        Err(e) => Err(e),
        Ok(o) => if o.verifier != verifier {
            Err(AidFlowError::NotAuthorizedVerifier)
        } else if o.status != OrderStatus::Delivered {
            Err(AidFlowError::DeliveryNotSubmitted)
        } else {
            Ok(with_order(s, order_id, with_status(o, OrderStatus::Verified)))
        },
    }
}

/// The originating NGO marks a `Verified` order as paid; the order's amount is
/// added to its supplier's running total.
pub open spec fn mark_paid_step(s: FlowState, ngo: Seq<char>, order_id: u64) -> Result<
    FlowState,
    AidFlowError,
> {
    match order_lookup(s, order_id) {
        Err(e) => Err(e),
        Ok(o) => if o.ngo != ngo {
            Err(AidFlowError::NotOriginatingNgo)
        } else if o.status != OrderStatus::Verified {
            Err(AidFlowError::DeliveryNotVerified)
        } else {
            let r = s.suppliers[o.supplier];
            let total = r.total_paid + o.usdc_amount;
            if !(i128::MIN <= total <= i128::MAX) {
                Err(AidFlowError::PaymentTotalOverflow)
            } else {
                Ok(
                    FlowState {
                        orders: s.orders.update(
                            order_id as int,
                            with_status(o, OrderStatus::Paid),
                        ),
                        suppliers: s.suppliers.insert(
                            o.supplier,
                            SupplierView { total_paid: total as i128, ..r },
                        ),
                        ..s
                    },
                )
            }
        },
    }
}

/// Whether the account takes part in the order as NGO, supplier or verifier.
pub open spec fn is_party(o: OrderView, who: Seq<char>) -> bool {
    o.ngo == who || o.supplier == who || o.verifier == who
}

/// A party to an order that is neither paid nor cancelled flags it as disputed.
pub open spec fn dispute_step(s: FlowState, caller: Seq<char>, order_id: u64) -> Result<
    FlowState,
    AidFlowError,
> {
    match order_lookup(s, order_id) {
        Err(e) => Err(e),
        Ok(o) => if !is_party(o, caller) {
            Err(AidFlowError::NotAParty)
        } else if o.status == OrderStatus::Paid || o.status == OrderStatus::Cancelled {
            Err(AidFlowError::OrderCompleted)
        } else {
            Ok(with_order(s, order_id, with_status(o, OrderStatus::Disputed)))
        },
    }
}

/// The outcome of a request: the next state, or why it was refused.
pub open spec fn step(s: FlowState, a: Action) -> Result<FlowState, AidFlowError> {
    match a {
        Action::Init { admin } => Ok(init_step(s, admin)),
        Action::ApproveSupplier { name, wallet } => approve_step(s, name, wallet),
        Action::CreateOrder { ngo, supplier, description, usdc_amount, verifier, now } =>
            create_step(s, ngo, supplier, description, usdc_amount, verifier, now),
        Action::AcceptOrder { supplier, order_id } => accept_step(s, supplier, order_id),
        Action::SubmitDelivery { supplier, order_id, proof } =>
            submit_step(s, supplier, order_id, proof),
        Action::VerifyDelivery { verifier, order_id } => verify_step(s, verifier, order_id),
        Action::MarkPaid { ngo, order_id } => mark_paid_step(s, ngo, order_id),
        Action::RaiseDispute { caller, order_id } => dispute_step(s, caller, order_id),
    }
}

/// A call's result and the state after it agree with the expected outcome: on
/// success the state is the expected next state, on refusal the call returns
/// the expected error and the state is unchanged.
pub open spec fn applied<T>(
    expected: Result<FlowState, AidFlowError>,
    pre: FlowState,
    post: FlowState,
    r: Result<T, AidFlowError>,
) -> bool {
    match expected {
        Ok(t) => r is Ok && post == t,
        Err(e) => r == Err::<T, AidFlowError>(e) && post == pre,
    }
}

/// The state after a sequence of requests, each applied to the state the
/// previous ones left; a refused request leaves the state as it was.
pub open spec fn run(s: FlowState, acts: Seq<Action>) -> FlowState
    decreases acts.len(),
{
    if acts.len() == 0 {
        s
    } else {
        let before = run(s, acts.drop_last());
        match step(before, acts.last()) {
            Ok(t) => t,
            Err(_) => before,
        }
    }
}

} // verus!
