use vstd::prelude::*;

verus! {

/// An account on the ledger, identified by its textual key.
pub struct Address {
    key: String,
}

impl View for Address {
    type V = Seq<char>;

    closed spec fn view(&self) -> Seq<char> {
        self.key@
    }
}

impl Address {
    /// Wraps the textual key of an account.
    pub fn new(key: String) -> (a: Address)
        ensures
            a@ == key@,
    {
        Address { key }
    }

    /// The textual key of the account.
    pub fn key(&self) -> (k: &String)
        ensures
            k@ == self@,
    {
        &self.key
    }

    /// Whether two addresses name the same account.
    pub fn same_as(&self, other: &Address) -> (b: bool)
        ensures
            b == (self@ == other@),
    {
        self.key == other.key
    }

}

impl Clone for Address {
    fn clone(&self) -> (a: Address)
        ensures
            a@ == self@,
    {
        Address { key: self.key.clone() }
    }
}

/// Lifecycle state of a purchase order.
#[derive(Clone, Copy, Debug, PartialEq, Eq, Structural)]
pub enum OrderStatus {
    /// The NGO created the order.
    Created,
    /// The supplier confirmed it can fulfil the order.
    Accepted,
    /// The supplier marked the delivery complete.
    Delivered,
    /// The field officer verified receipt.
    Verified,
    /// Payment was released to the supplier.
    Paid,
    /// Flagged for manual resolution.
    Disputed,
    /// Cancelled before delivery.
    Cancelled,
}

/// A purchase order: one supply-chain payment event.
pub struct PurchaseOrder {
    pub id: u64,
    /// The NGO account that created the order.
    pub ngo: Address,
    /// The supplier account that will be paid.
    pub supplier: Address,
    pub description: String,
    /// Amount in stroops (1 USDC = 10_000_000).
    pub usdc_amount: i128,
    pub status: OrderStatus,
    /// Ledger timestamp of creation.
    pub created_at: u64,
    /// Content identifier or coordinates handed in by the supplier.
    pub delivery_proof: String,
    /// The field officer allowed to verify the delivery.
    pub verifier: Address,
}

/// The mathematical value of a purchase order.
pub struct OrderView {
    pub id: u64,
    pub ngo: Seq<char>,
    pub supplier: Seq<char>,
    pub description: Seq<char>,
    pub usdc_amount: i128,
    pub status: OrderStatus,
    pub created_at: u64,
    pub delivery_proof: Seq<char>,
    pub verifier: Seq<char>,
}

impl View for PurchaseOrder {
    type V = OrderView;

    open spec fn view(&self) -> OrderView {
        OrderView {
            id: self.id,
            ngo: self.ngo@,
            supplier: self.supplier@,
            description: self.description@,
            usdc_amount: self.usdc_amount,
            status: self.status,
            created_at: self.created_at,
            delivery_proof: self.delivery_proof@,
            verifier: self.verifier@,
        }
    }
}

impl Clone for PurchaseOrder {
    fn clone(&self) -> (o: PurchaseOrder)
        ensures
            o@ == self@,
    {
        PurchaseOrder {
            id: self.id,
            ngo: self.ngo.clone(),
            supplier: self.supplier.clone(),
            description: self.description.clone(),
            usdc_amount: self.usdc_amount,
            status: self.status,
            created_at: self.created_at,
            delivery_proof: self.delivery_proof.clone(),
            verifier: self.verifier.clone(),
        }
    }
}

/// The record kept of a supplier for trust and compliance checks.
pub struct Supplier {
    pub wallet: Address,
    pub name: String,
    /// The administrator must approve a supplier before its first order.
    pub is_approved: bool,
    /// Running total of payments, for the audit trail.
    pub total_paid: i128,
}

/// The mathematical value of a supplier record.
pub struct SupplierView {
    pub wallet: Seq<char>,
    pub name: Seq<char>,
    pub is_approved: bool,
    pub total_paid: i128,
}

impl View for Supplier {
    type V = SupplierView;

    open spec fn view(&self) -> SupplierView {
        SupplierView {
            wallet: self.wallet@,
            name: self.name@,
            is_approved: self.is_approved,
            total_paid: self.total_paid,
        }
    }
}

impl Clone for Supplier {
    fn clone(&self) -> (s: Supplier)
        ensures
            s@ == self@,
    {
        Supplier {
            wallet: self.wallet.clone(),
            name: self.name.clone(),
            is_approved: self.is_approved,
            total_paid: self.total_paid,
        }
    }
}

/// Why a request was refused. Each refusal leaves the ledger unchanged.
#[derive(Clone, Copy, Debug, PartialEq, Eq, Structural)]
pub enum AidFlowError {
    /// The ledger has not been initialized.
    NotInitialized,
    /// The supplier named in a new order has no record.
    SupplierNotApproved,
    /// The supplier record of a new order is not approved.
    SupplierNotActive,
    /// A new order's amount is zero or negative.
    NonPositiveAmount,
    /// No order has the given id.
    OrderNotFound,
    /// The caller is not the order's supplier.
    NotDesignatedSupplier,
    /// The order is not in the `Created` state.
    OrderNotCreated,
    /// The order is not in the `Accepted` state.
    OrderNotAccepted,
    /// The caller is not the order's verifier.
    NotAuthorizedVerifier,
    /// The order is not in the `Delivered` state.
    DeliveryNotSubmitted,
    /// The caller is not the order's NGO.
    NotOriginatingNgo,
    /// The order is not in the `Verified` state.
    DeliveryNotVerified,
    /// The caller is neither NGO, supplier nor verifier of the order.
    NotAParty,
    /// The order is already paid or cancelled.
    OrderCompleted,
    /// No supplier record exists for the wallet.
    SupplierNotFound,
    /// The supplier's running total would leave the range of `i128`.
    PaymentTotalOverflow,
}

/// The text that each refusal reports.
pub open spec fn error_message(e: AidFlowError) -> Seq<char> {
    match e {
        AidFlowError::NotInitialized => "Contract not initialized"@,
        AidFlowError::SupplierNotApproved => "Supplier not approved. Admin must approve supplier first."@,
        AidFlowError::SupplierNotActive => "Supplier account is not active"@,
        AidFlowError::NonPositiveAmount => "Amount must be positive"@,
        AidFlowError::OrderNotFound => "Order not found"@,
        AidFlowError::NotDesignatedSupplier => "Not the designated supplier"@,
        AidFlowError::OrderNotCreated => "Order not in Created state"@,
        AidFlowError::OrderNotAccepted => "Order not accepted yet"@,
        AidFlowError::NotAuthorizedVerifier => "Not the authorized verifier"@,
        AidFlowError::DeliveryNotSubmitted => "Delivery not submitted yet"@,
        AidFlowError::NotOriginatingNgo => "Not the originating NGO"@,
        AidFlowError::DeliveryNotVerified => "Delivery not verified"@,
        AidFlowError::NotAParty => "Caller is not a party to this order"@,
        AidFlowError::OrderCompleted => "Cannot dispute a completed order"@,
        AidFlowError::SupplierNotFound => "Supplier not found"@,
        AidFlowError::PaymentTotalOverflow => "attempt to add with overflow"@,
    }
}

impl AidFlowError {
    /// The text reported for this refusal.
    pub fn message(&self) -> (m: &'static str)
        ensures
            m@ == error_message(*self),
    {
        match self {
            AidFlowError::NotInitialized => "Contract not initialized",
            AidFlowError::SupplierNotApproved => "Supplier not approved. Admin must approve supplier first.",
            AidFlowError::SupplierNotActive => "Supplier account is not active",
            AidFlowError::NonPositiveAmount => "Amount must be positive",
            AidFlowError::OrderNotFound => "Order not found",
            AidFlowError::NotDesignatedSupplier => "Not the designated supplier",
            AidFlowError::OrderNotCreated => "Order not in Created state",
            AidFlowError::OrderNotAccepted => "Order not accepted yet",
            AidFlowError::NotAuthorizedVerifier => "Not the authorized verifier",
            AidFlowError::DeliveryNotSubmitted => "Delivery not submitted yet",
            AidFlowError::NotOriginatingNgo => "Not the originating NGO",
            AidFlowError::DeliveryNotVerified => "Delivery not verified",
            AidFlowError::NotAParty => "Caller is not a party to this order",
            AidFlowError::OrderCompleted => "Cannot dispute a completed order",
            AidFlowError::SupplierNotFound => "Supplier not found",
            AidFlowError::PaymentTotalOverflow => "attempt to add with overflow",
        }
    }
}

} // verus!
