use aidflow::{Address, AidFlow, AidFlowError, OrderStatus};

fn addr(key: &str) -> Address {
    Address::new(key.to_string())
}

fn setup() -> (AidFlow, Address, Address, Address, Address) {
    let mut flow = AidFlow::new();
    let admin = addr("GADMIN0000000000000000000000000000000000000000000000000");
    let supplier_wallet = addr("GSUPPLIER00000000000000000000000000000000000000000000000");
    let verifier = addr("GVERIFIER00000000000000000000000000000000000000000000000");
    let ngo = addr("GNGO0000000000000000000000000000000000000000000000000000");

    flow.init(admin.clone());
    flow.approve_supplier("Kampala Grain Co.".to_string(), supplier_wallet.clone())
        .unwrap();

    (flow, admin, ngo, supplier_wallet, verifier)
}

// Full flow from order creation to payment.
#[test]
fn test_happy_path_full_order_lifecycle() {
    let (mut flow, _admin, ngo, supplier, verifier) = setup();

    let order_id = flow
        .create_order(
            ngo.clone(),
            supplier.clone(),
            "500 kg rice – Kampala warehouse".to_string(),
            5_000_000_000i128,
            verifier.clone(),
            0,
        )
        .unwrap();
    assert_eq!(order_id, 0);

    flow.accept_order(supplier.clone(), order_id).unwrap();
    flow.submit_delivery(
        supplier.clone(),
        order_id,
        "QmXvZ9aBcDeFgHiJkLmNoPqRsTuVwXyZ1234567890".to_string(),
    )
    .unwrap();
    flow.verify_delivery(verifier.clone(), order_id).unwrap();
    flow.mark_paid(ngo.clone(), order_id).unwrap();

    let order = flow.get_order(order_id).unwrap();
    assert_eq!(order.status, OrderStatus::Paid);

    let supplier_record = flow.get_supplier(supplier.clone()).unwrap();
    assert_eq!(supplier_record.total_paid, 5_000_000_000i128);
}

// An unapproved supplier cannot receive a purchase order.
#[test]
fn test_unapproved_supplier_blocked() {
    let (mut flow, _admin, ngo, _supplier, verifier) = setup();
    let rogue_supplier = addr("GROGUE00000000000000000000000000000000000000000000000000");

    let r = flow.create_order(
        ngo,
        rogue_supplier,
        "Fake goods".to_string(),
        1_000_000_000i128,
        verifier,
        0,
    );
    assert_eq!(r, Err(AidFlowError::SupplierNotApproved));
    assert!(r.unwrap_err().message().starts_with("Supplier not approved"));
    assert_eq!(flow.get_order_ids().unwrap(), Vec::<u64>::new());
}

// The stored status follows each step.
#[test]
fn test_state_transitions_stored_correctly() {
    let (mut flow, _admin, ngo, supplier, verifier) = setup();

    let order_id = flow
        .create_order(
            ngo.clone(),
            supplier.clone(),
            "Medical kits – Nairobi depot".to_string(),
            2_000_000_000i128,
            verifier.clone(),
            0,
        )
        .unwrap();

    let order = flow.get_order(order_id).unwrap();
    assert_eq!(order.status, OrderStatus::Created);

    flow.accept_order(supplier.clone(), order_id).unwrap();
    assert_eq!(flow.get_order(order_id).unwrap().status, OrderStatus::Accepted);

    let proof = "QmTestProofHash".to_string();
    flow.submit_delivery(supplier.clone(), order_id, proof.clone()).unwrap();
    let order_after_delivery = flow.get_order(order_id).unwrap();
    assert_eq!(order_after_delivery.status, OrderStatus::Delivered);
    assert_eq!(order_after_delivery.delivery_proof, proof);

    flow.verify_delivery(verifier.clone(), order_id).unwrap();
    assert_eq!(flow.get_order(order_id).unwrap().status, OrderStatus::Verified);
}

// The supplier raises a dispute before verification.
#[test]
fn test_supplier_can_raise_dispute() {
    let (mut flow, _admin, ngo, supplier, verifier) = setup();

    let order_id = flow
        .create_order(
            ngo.clone(),
            supplier.clone(),
            "Blankets – Port-au-Prince".to_string(),
            500_000_000i128,
            verifier.clone(),
            0,
        )
        .unwrap();
    flow.accept_order(supplier.clone(), order_id).unwrap();
    flow.submit_delivery(supplier.clone(), order_id, "QmDisputeProof".to_string()).unwrap();

    flow.raise_dispute(supplier.clone(), order_id).unwrap();
    assert_eq!(flow.get_order(order_id).unwrap().status, OrderStatus::Disputed);
}

// A wrong verifier cannot approve the delivery.
#[test]
fn test_unauthorized_verifier_rejected() {
    let (mut flow, _admin, ngo, supplier, verifier) = setup();
    let impostor = addr("GIMPOSTOR00000000000000000000000000000000000000000000000");

    let order_id = flow
        .create_order(
            ngo.clone(),
            supplier.clone(),
            "Tents – Mogadishu".to_string(),
            1_000_000_000i128,
            verifier.clone(),
            0,
        )
        .unwrap();
    flow.accept_order(supplier.clone(), order_id).unwrap();
    flow.submit_delivery(supplier.clone(), order_id, "QmImpostorProof".to_string()).unwrap();

    let r = flow.verify_delivery(impostor, order_id);
    assert_eq!(r, Err(AidFlowError::NotAuthorizedVerifier));
    assert_eq!(r.unwrap_err().message(), "Not the authorized verifier");
    assert_eq!(flow.get_order(order_id).unwrap().status, OrderStatus::Delivered);
}
