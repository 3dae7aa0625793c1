//! Workflow rules of an aid-supply payment ledger: suppliers are approved by
//! an administrator, purchase orders move from creation through acceptance,
//! delivery, verification and payment, and any party may freeze an open order
//! by raising a dispute.

pub mod effects;
pub mod flow;
pub mod history;
pub mod laws;
pub mod model;
pub mod types;

pub use flow::AidFlow;
pub use types::{Address, AidFlowError, OrderStatus, PurchaseOrder, Supplier};
