use aidflow::{Address, AidFlow, AidFlowError, OrderStatus, PurchaseOrder, Supplier};

fn addr(key: &str) -> Address {
    Address::new(key.to_string())
}

struct World {
    flow: AidFlow,
    admin: Address,
    ngo: Address,
    supplier: Address,
    verifier: Address,
}

fn world() -> World {
    let mut flow = AidFlow::new();
    let admin = addr("GADMIN");
    flow.init(admin.clone());
    let supplier = addr("GSUPPLIER");
    flow.approve_supplier("Kampala Grain Co.".to_string(), supplier.clone()).unwrap();
    World { flow, admin, ngo: addr("GNGO"), supplier, verifier: addr("GVERIFIER") }
}

fn order(w: &mut World, amount: i128) -> u64 {
    w.flow
        .create_order(
            w.ngo.clone(),
            w.supplier.clone(),
            "Water filters".to_string(),
            amount,
            w.verifier.clone(),
            1_700_000_000,
        )
        .unwrap()
}

fn deliver(w: &mut World, id: u64) {
    w.flow.accept_order(w.supplier.clone(), id).unwrap();
    w.flow.submit_delivery(w.supplier.clone(), id, "QmProof".to_string()).unwrap();
}

fn status(w: &World, id: u64) -> OrderStatus {
    w.flow.get_order(id).unwrap().status
}

#[test]
fn uninitialized_ledger_refuses_everything() {
    let mut flow = AidFlow::new();
    let a = addr("GANY");
    assert!(flow.admin().is_none());
    assert_eq!(
        flow.approve_supplier("x".to_string(), a.clone()),
        Err(AidFlowError::NotInitialized)
    );
    assert_eq!(
        flow.create_order(a.clone(), a.clone(), "x".to_string(), 1, a.clone(), 0),
        Err(AidFlowError::NotInitialized)
    );
    assert_eq!(flow.accept_order(a.clone(), 0), Err(AidFlowError::NotInitialized));
    assert_eq!(flow.mark_paid(a.clone(), 0), Err(AidFlowError::NotInitialized));
    assert_eq!(flow.raise_dispute(a.clone(), 0), Err(AidFlowError::NotInitialized));
    assert_eq!(flow.get_order(0).err(), Some(AidFlowError::NotInitialized));
    assert_eq!(flow.get_order_ids(), Err(AidFlowError::NotInitialized));
    assert_eq!(flow.get_supplier(a).err(), Some(AidFlowError::NotInitialized));
}

#[test]
fn order_ids_are_sequential() {
    let mut w = world();
    assert_eq!(w.flow.get_order_ids().unwrap(), Vec::<u64>::new());
    assert_eq!(order(&mut w, 10), 0);
    assert_eq!(order(&mut w, 20), 1);
    assert_eq!(order(&mut w, 30), 2);
    assert_eq!(w.flow.get_order_ids().unwrap(), vec![0, 1, 2]);
    let o = w.flow.get_order(1).unwrap();
    assert_eq!(o.id, 1);
    assert_eq!(o.usdc_amount, 20);
    assert_eq!(o.created_at, 1_700_000_000);
    assert_eq!(o.delivery_proof, "");
    assert_eq!(o.description, "Water filters");
    assert_eq!(o.status, OrderStatus::Created);
    assert_eq!(o.ngo.key(), "GNGO");
    assert_eq!(o.supplier.key(), "GSUPPLIER");
    assert_eq!(o.verifier.key(), "GVERIFIER");
    assert_eq!(w.flow.get_order(3).err(), Some(AidFlowError::OrderNotFound));
}

#[test]
fn amount_must_be_positive() {
    let mut w = world();
    for amount in [0i128, -5, i128::MIN] {
        let r = w.flow.create_order(
            w.ngo.clone(),
            w.supplier.clone(),
            "x".to_string(),
            amount,
            w.verifier.clone(),
            0,
        );
        assert_eq!(r, Err(AidFlowError::NonPositiveAmount));
    }
    assert_eq!(w.flow.get_order_ids().unwrap(), Vec::<u64>::new());
}

#[test]
fn steps_out_of_order_are_refused() {
    let mut w = world();
    let id = order(&mut w, 100);
    assert_eq!(
        w.flow.submit_delivery(w.supplier.clone(), id, "p".to_string()),
        Err(AidFlowError::OrderNotAccepted)
    );
    assert_eq!(
        w.flow.verify_delivery(w.verifier.clone(), id),
        Err(AidFlowError::DeliveryNotSubmitted)
    );
    assert_eq!(w.flow.mark_paid(w.ngo.clone(), id), Err(AidFlowError::DeliveryNotVerified));
    w.flow.accept_order(w.supplier.clone(), id).unwrap();
    assert_eq!(w.flow.accept_order(w.supplier.clone(), id), Err(AidFlowError::OrderNotCreated));
    assert_eq!(status(&w, id), OrderStatus::Accepted);
    assert_eq!(w.flow.accept_order(w.supplier.clone(), 7), Err(AidFlowError::OrderNotFound));
}

#[test]
fn only_the_named_parties_move_an_order() {
    let mut w = world();
    let id = order(&mut w, 100);
    let stranger = addr("GSTRANGER");
    assert_eq!(
        w.flow.accept_order(w.ngo.clone(), id),
        Err(AidFlowError::NotDesignatedSupplier)
    );
    w.flow.accept_order(w.supplier.clone(), id).unwrap();
    assert_eq!(
        w.flow.submit_delivery(stranger.clone(), id, "p".to_string()),
        Err(AidFlowError::NotDesignatedSupplier)
    );
    w.flow.submit_delivery(w.supplier.clone(), id, "p".to_string()).unwrap();
    assert_eq!(
        w.flow.verify_delivery(w.supplier.clone(), id),
        Err(AidFlowError::NotAuthorizedVerifier)
    );
    assert_eq!(w.flow.verify_delivery(w.verifier.clone(), id), Ok(100));
    assert_eq!(
        w.flow.mark_paid(w.supplier.clone(), id),
        Err(AidFlowError::NotOriginatingNgo)
    );
    assert_eq!(w.flow.raise_dispute(stranger, id), Err(AidFlowError::NotAParty));
    assert_eq!(status(&w, id), OrderStatus::Verified);
}

#[test]
fn every_party_may_dispute_an_open_order() {
    let mut w = world();
    let a = order(&mut w, 1);
    let b = order(&mut w, 2);
    let c = order(&mut w, 3);
    w.flow.raise_dispute(w.ngo.clone(), a).unwrap();
    w.flow.raise_dispute(w.supplier.clone(), b).unwrap();
    w.flow.raise_dispute(w.verifier.clone(), c).unwrap();
    for id in [a, b, c] {
        assert_eq!(status(&w, id), OrderStatus::Disputed);
    }
    // A disputed order is frozen for the normal flow but may be disputed again.
    assert_eq!(w.flow.accept_order(w.supplier.clone(), a), Err(AidFlowError::OrderNotCreated));
    w.flow.raise_dispute(w.ngo.clone(), a).unwrap();
    assert_eq!(status(&w, a), OrderStatus::Disputed);
}

#[test]
fn paid_orders_cannot_be_disputed() {
    let mut w = world();
    let id = order(&mut w, 42);
    deliver(&mut w, id);
    w.flow.verify_delivery(w.verifier.clone(), id).unwrap();
    w.flow.mark_paid(w.ngo.clone(), id).unwrap();
    let r = w.flow.raise_dispute(w.ngo.clone(), id);
    assert_eq!(r, Err(AidFlowError::OrderCompleted));
    assert_eq!(r.unwrap_err().message(), "Cannot dispute a completed order");
    assert_eq!(status(&w, id), OrderStatus::Paid);
}

#[test]
fn payments_accumulate_per_supplier() {
    let mut w = world();
    let other = addr("GOTHER");
    w.flow.approve_supplier("Other".to_string(), other.clone()).unwrap();
    let a = order(&mut w, 300);
    let b = order(&mut w, 45);
    for id in [a, b] {
        deliver(&mut w, id);
        w.flow.verify_delivery(w.verifier.clone(), id).unwrap();
        w.flow.mark_paid(w.ngo.clone(), id).unwrap();
    }
    assert_eq!(w.flow.get_supplier(w.supplier.clone()).unwrap().total_paid, 345);
    assert_eq!(w.flow.get_supplier(other).unwrap().total_paid, 0);
}

#[test]
fn reapproval_keeps_the_running_total() {
    let mut w = world();
    let id = order(&mut w, 500);
    deliver(&mut w, id);
    w.flow.verify_delivery(w.verifier.clone(), id).unwrap();
    w.flow.mark_paid(w.ngo.clone(), id).unwrap();
    w.flow.approve_supplier("Renamed Co.".to_string(), w.supplier.clone()).unwrap();
    let s = w.flow.get_supplier(w.supplier.clone()).unwrap();
    assert_eq!(s.total_paid, 500);
    assert_eq!(s.name, "Renamed Co.");
    assert!(s.is_approved);
    assert_eq!(s.wallet.key(), "GSUPPLIER");
}

#[test]
fn running_total_overflow_is_refused() {
    let mut w = world();
    let a = order(&mut w, i128::MAX);
    let b = order(&mut w, 1);
    for id in [a, b] {
        deliver(&mut w, id);
        w.flow.verify_delivery(w.verifier.clone(), id).unwrap();
    }
    w.flow.mark_paid(w.ngo.clone(), a).unwrap();
    let r = w.flow.mark_paid(w.ngo.clone(), b);
    assert_eq!(r, Err(AidFlowError::PaymentTotalOverflow));
    assert_eq!(status(&w, b), OrderStatus::Verified);
    assert_eq!(w.flow.get_supplier(w.supplier.clone()).unwrap().total_paid, i128::MAX);
}

#[test]
fn unknown_supplier_lookup() {
    let w = world();
    assert_eq!(
        w.flow.get_supplier(addr("GNOBODY")).err(),
        Some(AidFlowError::SupplierNotFound)
    );
    assert_eq!(AidFlowError::SupplierNotFound.message(), "Supplier not found");
}

#[test]
fn init_again_starts_an_empty_ledger() {
    let mut w = world();
    order(&mut w, 5);
    let new_admin = addr("GNEWADMIN");
    w.flow.init(new_admin);
    assert_eq!(w.flow.admin().unwrap().key(), "GNEWADMIN");
    assert_eq!(w.flow.get_order_ids().unwrap(), Vec::<u64>::new());
    assert_eq!(
        w.flow.get_supplier(w.supplier.clone()).err(),
        Some(AidFlowError::SupplierNotFound)
    );
    assert_eq!(w.admin.key(), "GADMIN");
}

#[test]
fn refused_request_leaves_ledger_unchanged() {
    let mut w = world();
    let id = order(&mut w, 9);
    let before = w.flow.get_order(id).unwrap();
    assert!(w.flow.mark_paid(w.ngo.clone(), id).is_err());
    assert!(w.flow.verify_delivery(w.ngo.clone(), id).is_err());
    let after = w.flow.get_order(id).unwrap();
    assert_eq!(before.status, after.status);
    assert_eq!(before.delivery_proof, after.delivery_proof);
    assert_eq!(w.flow.get_order_ids().unwrap(), vec![0]);
}

#[test]
fn saved_parts_reload_to_the_same_ledger() {
    let mut w = world();
    let a = order(&mut w, 70);
    order(&mut w, 80);
    deliver(&mut w, a);
    let admin = w.flow.admin().cloned();
    let orders: Vec<PurchaseOrder> = w.flow.orders().iter().cloned().collect();
    let suppliers: Vec<Supplier> = w.flow.suppliers().iter().cloned().collect();
    let mut copy = AidFlow::from_parts(admin, orders, suppliers).unwrap();
    assert_eq!(copy.get_order_ids().unwrap(), vec![0, 1]);
    assert_eq!(copy.get_order(a).unwrap().status, OrderStatus::Delivered);
    assert_eq!(copy.get_order(a).unwrap().delivery_proof, "QmProof");
    assert_eq!(copy.admin().unwrap().key(), "GADMIN");
    copy.verify_delivery(w.verifier.clone(), a).unwrap();
    assert_eq!(copy.get_order(a).unwrap().status, OrderStatus::Verified);
}

#[test]
fn parts_that_break_the_invariant_are_rejected() {
    let mut w = world();
    order(&mut w, 70);
    let admin = w.flow.admin().cloned();
    let orders: Vec<PurchaseOrder> = w.flow.orders().iter().cloned().collect();
    let suppliers: Vec<Supplier> = w.flow.suppliers().iter().cloned().collect();

    // An order whose id is not its position.
    let mut bad = orders.clone();
    bad[0].id = 5;
    assert!(AidFlow::from_parts(admin.clone(), bad, suppliers.clone()).is_none());

    // An order whose supplier has no record.
    assert!(AidFlow::from_parts(admin.clone(), orders.clone(), Vec::new()).is_none());

    // A wallet recorded twice.
    let mut twice = suppliers.clone();
    twice.push(suppliers[0].clone());
    assert!(AidFlow::from_parts(admin.clone(), orders.clone(), twice).is_none());

    // A running total that is not the sum of the paid orders.
    let id = 0u64;
    let mut paid = orders.clone();
    paid[id as usize].status = OrderStatus::Paid;
    assert!(AidFlow::from_parts(admin.clone(), paid.clone(), suppliers.clone()).is_none());
    let mut credited = suppliers.clone();
    credited[0].total_paid = 70;
    assert!(AidFlow::from_parts(admin.clone(), paid, credited).is_some());

    // An unapproved record.
    let mut unapproved = suppliers.clone();
    unapproved[0].is_approved = false;
    assert!(AidFlow::from_parts(admin.clone(), orders.clone(), unapproved).is_none());

    // Orders without an administrator.
    assert!(AidFlow::from_parts(None, orders.clone(), suppliers.clone()).is_none());

    // The untouched parts are accepted; so is an empty, uninitialized ledger.
    assert!(AidFlow::from_parts(admin, orders, suppliers).is_some());
    assert!(AidFlow::from_parts(None, Vec::new(), Vec::new()).is_some());
}

#[test]
fn addresses_compare_by_key() {
    let a = addr("GA");
    assert!(a.same_as(&addr("GA")));
    assert!(!a.same_as(&addr("GB")));
    assert_eq!(a.clone().key(), "GA");
}

#[test]
fn disputed_order_is_frozen() {
    let mut w = world();
    let id = order(&mut w, 12);
    deliver(&mut w, id);
    w.flow.raise_dispute(w.verifier.clone(), id).unwrap();
    assert_eq!(
        w.flow.verify_delivery(w.verifier.clone(), id),
        Err(AidFlowError::DeliveryNotSubmitted)
    );
    assert_eq!(w.flow.mark_paid(w.ngo.clone(), id), Err(AidFlowError::DeliveryNotVerified));
    assert_eq!(
        w.flow.submit_delivery(w.supplier.clone(), id, "again".to_string()),
        Err(AidFlowError::OrderNotAccepted)
    );
    let o = w.flow.get_order(id).unwrap();
    assert_eq!(o.status, OrderStatus::Disputed);
    assert_eq!(o.delivery_proof, "QmProof");
}

#[test]
fn new_wallet_starts_from_zero_and_totals_match_paid_orders() {
    let mut w = world();
    let a = order(&mut w, 11);
    let b = order(&mut w, 22);
    let c = order(&mut w, 33);
    for id in [a, c] {
        deliver(&mut w, id);
        w.flow.verify_delivery(w.verifier.clone(), id).unwrap();
        w.flow.mark_paid(w.ngo.clone(), id).unwrap();
    }
    w.flow.raise_dispute(w.ngo.clone(), b).unwrap();
    w.flow.approve_supplier("Again".to_string(), w.supplier.clone()).unwrap();
    assert_eq!(w.flow.get_supplier(w.supplier.clone()).unwrap().total_paid, 44);
    let fresh = addr("GFRESH");
    w.flow.approve_supplier("Fresh".to_string(), fresh.clone()).unwrap();
    assert_eq!(w.flow.get_supplier(fresh).unwrap().total_paid, 0);
}
