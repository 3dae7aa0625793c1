use vstd::prelude::*;

use crate::laws::{lemma_paid_sum_prefix_le, lemma_step_preserves_valid};
use crate::model::{
    accept_step, applied, approve_step, create_step, dispute_step, init_step, mark_paid_step,
    order_ids, order_lookup, paid_sum, step, submit_step, supplier_lookup, uninitialized, valid,
    verify_step, with_order, Action, FlowState,
};
use crate::types::{
    Address, AidFlowError, OrderStatus, OrderView, PurchaseOrder, Supplier, SupplierView,
};

verus! {

/// The supplier records of a list, keyed by wallet.
pub open spec fn supplier_map(s: Seq<SupplierView>) -> Map<Seq<char>, SupplierView> {
    Map::new(
        |w: Seq<char>| exists|i: int| 0 <= i < s.len() && (#[trigger] s[i]).wallet == w,
        |w: Seq<char>| s[choose|i: int| 0 <= i < s.len() && (#[trigger] s[i]).wallet == w],
    )
}

/// No wallet has two records in the list.
pub open spec fn wallets_distinct(s: Seq<SupplierView>) -> bool {
    forall|i: int, j: int|
        0 <= i < s.len() && 0 <= j < s.len() && i != j ==> (#[trigger] s[i]).wallet != (
        #[trigger] s[j]).wallet
}

proof fn lemma_supplier_map_at(s: Seq<SupplierView>, i: int)
    requires
        wallets_distinct(s),
        0 <= i < s.len(),
    ensures
        supplier_map(s).contains_key(s[i].wallet),
        supplier_map(s)[s[i].wallet] == s[i],
{
    let w = s[i].wallet;
    assert(exists|k: int| 0 <= k < s.len() && (#[trigger] s[k]).wallet == w);
    let j = choose|k: int| 0 <= k < s.len() && (#[trigger] s[k]).wallet == w;
    assert(j == i);
}

proof fn lemma_supplier_map_update(s: Seq<SupplierView>, i: int, v: SupplierView)
    requires
        wallets_distinct(s),
        0 <= i < s.len(),
        v.wallet == s[i].wallet,
    ensures
        wallets_distinct(s.update(i, v)),
        supplier_map(s.update(i, v)) == supplier_map(s).insert(v.wallet, v),
{
    let t = s.update(i, v);
    assert(wallets_distinct(t)) by {
        assert forall|a: int, b: int|
            0 <= a < t.len() && 0 <= b < t.len() && a != b implies (#[trigger] t[a]).wallet != (
            #[trigger] t[b]).wallet by {
            assert(s[a].wallet == t[a].wallet);
            assert(s[b].wallet == t[b].wallet);
        }
    }
    let m1 = supplier_map(t);
    let m2 = supplier_map(s).insert(v.wallet, v);
    assert forall|w: Seq<char>| m1.contains_key(w) <==> m2.contains_key(w) by {
        if m1.contains_key(w) {
            let k = choose|k: int| 0 <= k < t.len() && (#[trigger] t[k]).wallet == w;
            if k != i {
                assert(s[k].wallet == w);
            }
        }
        if m2.contains_key(w) && w != v.wallet {
            let k = choose|k: int| 0 <= k < s.len() && (#[trigger] s[k]).wallet == w;
            assert(t[k].wallet == w);
        }
        if w == v.wallet {
            assert(t[i].wallet == w);
        }
    }
    assert forall|w: Seq<char>| m1.contains_key(w) implies m1[w] == m2[w] by {
        let k = choose|k: int| 0 <= k < t.len() && (#[trigger] t[k]).wallet == w;
        lemma_supplier_map_at(t, k);
        if k != i {
            lemma_supplier_map_at(s, k);
        }
    }
    assert(m1 =~= m2);
}

proof fn lemma_supplier_map_push(s: Seq<SupplierView>, v: SupplierView)
    requires
        wallets_distinct(s),
        !supplier_map(s).contains_key(v.wallet),
    ensures
        wallets_distinct(s.push(v)),
        supplier_map(s.push(v)) == supplier_map(s).insert(v.wallet, v),
{
    let t = s.push(v);
    assert forall|k: int| 0 <= k < s.len() implies (#[trigger] s[k]).wallet != v.wallet by {
        if s[k].wallet == v.wallet {
            assert(supplier_map(s).contains_key(v.wallet));
        }
    }
    assert(wallets_distinct(t)) by {
        assert forall|a: int, b: int|
            0 <= a < t.len() && 0 <= b < t.len() && a != b implies (#[trigger] t[a]).wallet != (
            #[trigger] t[b]).wallet by {
            if a < s.len() {
                assert(t[a] == s[a]);
            }
            if b < s.len() {
                assert(t[b] == s[b]);
            }
        }
    }
    let m1 = supplier_map(t);
    let m2 = supplier_map(s).insert(v.wallet, v);
    assert forall|w: Seq<char>| m1.contains_key(w) <==> m2.contains_key(w) by {
        if m1.contains_key(w) {
            let k = choose|k: int| 0 <= k < t.len() && (#[trigger] t[k]).wallet == w;
            if k < s.len() {
                assert(s[k].wallet == w);
            }
        }
        if m2.contains_key(w) && w != v.wallet {
            let k = choose|k: int| 0 <= k < s.len() && (#[trigger] s[k]).wallet == w;
            assert(t[k].wallet == w);
        }
        if w == v.wallet {
            assert(t[s.len() as int].wallet == w);
        }
    }
    assert forall|w: Seq<char>| m1.contains_key(w) implies m1[w] == m2[w] by {
        let k = choose|k: int| 0 <= k < t.len() && (#[trigger] t[k]).wallet == w;
        lemma_supplier_map_at(t, k);
        if k < s.len() {
            assert(t[k] == s[k]);
            lemma_supplier_map_at(s, k);
        }
    }
    assert(m1 =~= m2);
}

/// The state that an administrator, an order list and a supplier list stand for.
pub open spec fn parts_view(
    admin: Option<Address>,
    orders: Seq<PurchaseOrder>,
    suppliers: Seq<Supplier>,
) -> FlowState {
    FlowState {
        admin: match admin {
            Some(a) => Some(a@),
            None => None,
        },
        orders: orders.map_values(|o: PurchaseOrder| o@),
        suppliers: supplier_map(suppliers.map_values(|r: Supplier| r@)),
    }
}

/// Whether the parts form a ledger: the state they stand for keeps the
/// invariant and no wallet has two records.
pub open spec fn parts_ok(
    admin: Option<Address>,
    orders: Seq<PurchaseOrder>,
    suppliers: Seq<Supplier>,
) -> bool {
    &&& valid(parts_view(admin, orders, suppliers))
    &&& wallets_distinct(suppliers.map_values(|r: Supplier| r@))
}

/// The ledger of one deployment: its administrator, its order book, and its
/// supplier records.
///
/// Orders are kept in a `Vec` by id and supplier records in a `Vec` that holds
/// each wallet at most once, which the view reads as a map from wallet to
/// record. A ledger-hosted map of the contract platform would not do here: it
/// lives in its host environment and holds only values that convert to host
/// values, which these plain types are not.
pub struct AidFlow {
    admin: Option<Address>,
    orders: Vec<PurchaseOrder>,
    suppliers: Vec<Supplier>,
}

impl View for AidFlow {
    type V = FlowState;

    closed spec fn view(&self) -> FlowState {
        parts_view(self.admin, self.orders@, self.suppliers@)
    }
}

impl AidFlow {
    /// The invariant of the ledger, with no wallet recorded twice.
    pub closed spec fn wf(&self) -> bool {
        parts_ok(self.admin, self.orders@, self.suppliers@)
    }

    /// A well-formed ledger keeps the invariant.
    pub proof fn lemma_wf_valid(f: AidFlow)
        requires
            f.wf(),
        ensures
            valid(f@),
    {
    }

    /// A freshly deployed ledger, not yet initialized.
    pub fn new() -> (f: AidFlow)
        ensures
            f.wf(),
            f@ == uninitialized(),
    {
        let f = AidFlow { admin: None, orders: Vec::new(), suppliers: Vec::new() };
        assert(f@.orders =~= Seq::<OrderView>::empty());
        assert(f@.suppliers =~= Map::<Seq<char>, SupplierView>::empty());
        f
    }

    /// Sets the administrator who approves suppliers and starts an empty order
    /// book and supplier list, discarding whatever the ledger held.
    pub fn init(&mut self, admin: Address)
        ensures
            final(self).wf(),
            final(self)@ == init_step(old(self)@, admin@),
    {
        self.admin = Some(admin);
        self.orders = Vec::new();
        self.suppliers = Vec::new();
        assert(self@.orders =~= Seq::<OrderView>::empty());
        assert(self@.suppliers =~= Map::<Seq<char>, SupplierView>::empty());
    }

    /// The administrator, once the ledger is initialized.
    pub fn admin(&self) -> (a: Option<&Address>)
        ensures
            match a {
                Some(x) => self@.admin == Some(x@),
                None => self@.admin is None,
            },
    {
        match &self.admin {
            Some(x) => Some(x),
            None => None,
        }
    }

    /// The position of the wallet's record in the supplier list.
    fn find_supplier(&self, wallet: &Address) -> (r: Option<usize>)
        requires
            wallets_distinct(self.suppliers@.map_values(|r: Supplier| r@)),
        ensures
            match r {
                Some(i) => i < self.suppliers.len() && self.suppliers@[i as int].wallet@
                    == wallet@ && self@.suppliers.contains_key(wallet@)
                    && self@.suppliers[wallet@] == self.suppliers@[i as int]@,
                None => !self@.suppliers.contains_key(wallet@),
            },
    {
        let ghost recs = self.suppliers@.map_values(|r: Supplier| r@);
        let mut i: usize = 0;
        while i < self.suppliers.len()
            invariant
                i <= self.suppliers.len(),
                recs == self.suppliers@.map_values(|r: Supplier| r@),
                wallets_distinct(recs),
                forall|k: int| 0 <= k < i ==> (#[trigger] recs[k]).wallet != wallet@,
            decreases self.suppliers.len() - i,
        {
            if self.suppliers[i].wallet.same_as(wallet) {
                proof {
                    lemma_supplier_map_at(recs, i as int);
                }
                return Some(i);
            }
            i += 1;
        }
        proof {
            if self@.suppliers.contains_key(wallet@) {
                let k = choose|k: int| 0 <= k < recs.len() && (#[trigger] recs[k]).wallet == wallet@;
                assert(recs[k].wallet != wallet@);
            }
        }
        None
    }

    /// Approves a supplier wallet: writes an approved record under the given
    /// name. A wallet approved before keeps its running total of payments; a
    /// new one starts from zero. Only approved suppliers can be named in an
    /// order.
    pub fn approve_supplier(&mut self, name: String, supplier_wallet: Address) -> (r: Result<
        (),
        AidFlowError,
    >)
        requires
            old(self).wf(),
        ensures
            final(self).wf(),
            applied(approve_step(old(self)@, name@, supplier_wallet@), old(self)@, final(self)@, r),
    {
        if self.admin.is_none() {
            return Err(AidFlowError::NotInitialized);
        }
        let ghost pre = self@;
        let ghost recs = self.suppliers@.map_values(|r: Supplier| r@);
        let found = self.find_supplier(&supplier_wallet);
        let total_paid = match found {
            Some(i) => self.suppliers[i].total_paid,
            None => 0,
        };
        let record = Supplier { wallet: supplier_wallet.clone(), name, is_approved: true, total_paid };
        match found {
            Some(i) => {
                self.suppliers.set(i, record);
                proof {
                    assert(self.suppliers@.map_values(|r: Supplier| r@) =~= recs.update(
                        i as int,
                        record@,
                    ));
                    lemma_supplier_map_update(recs, i as int, record@);
                }
            },
            None => {
                self.suppliers.push(record);
                proof {
                    assert(self.suppliers@.map_values(|r: Supplier| r@) =~= recs.push(record@));
                    lemma_supplier_map_push(recs, record@);
                }
            },
        }
        proof {
            assert(self@ == approve_step(pre, name@, supplier_wallet@).unwrap());
            lemma_step_preserves_valid(
                pre,
                Action::ApproveSupplier { name: name@, wallet: supplier_wallet@ },
            );
        }
        Ok(())
    }

    /// Records a new purchase order for an approved supplier and a positive
    /// amount, in the `Created` state with an empty delivery proof and the
    /// given creation time. Its id is the number of orders recorded so far,
    /// which the call returns.
    pub fn create_order(
        &mut self,
        ngo: Address,
        supplier: Address,
        description: String,
        usdc_amount: i128,
        verifier: Address,
        now: u64,
    ) -> (r: Result<u64, AidFlowError>)
        requires
            old(self).wf(),
        ensures
            final(self).wf(),
            applied(
                create_step(
                    old(self)@,
                    ngo@,
                    supplier@,
                    description@,
                    usdc_amount,
                    verifier@,
                    now,
                ),
                old(self)@,
                final(self)@,
                r,
            ),
            r matches Ok(id) ==> id == old(self)@.orders.len(),
    {
        if self.admin.is_none() {
            return Err(AidFlowError::NotInitialized);
        }
        let i = match self.find_supplier(&supplier) {
            None => return Err(AidFlowError::SupplierNotApproved),
            Some(i) => i,
        };
        if !self.suppliers[i].is_approved {
            return Err(AidFlowError::SupplierNotActive);
        }
        if usdc_amount <= 0 {
            return Err(AidFlowError::NonPositiveAmount);
        }
        let ghost pre = self@;
        let ghost action = Action::CreateOrder {
            ngo: ngo@,
            supplier: supplier@,
            description: description@,
            usdc_amount,
            verifier: verifier@,
            now,
        };
        let order_id = self.orders.len() as u64;
        let order = PurchaseOrder {
            id: order_id,
            ngo,
            supplier,
            description,
            usdc_amount,
            status: OrderStatus::Created,
            created_at: now,
            delivery_proof: String::new(),
            verifier,
        };
        self.orders.push(order);
        proof {
            // The longer list still has a `usize` length, so the id had room.
            assert(self.orders@.len() == self.orders.len());
            assert(self@.orders =~= pre.orders.push(order@));
            assert(self@ == step(pre, action).unwrap());
            lemma_step_preserves_valid(pre, action);
        }
        Ok(order_id)
    }

    /// The position of the order with the given id.
    fn order_index(&self, order_id: u64) -> (r: Result<usize, AidFlowError>)
        requires
            self.wf(),
        ensures
            match r {
                Ok(i) => i == order_id && i < self.orders.len() && order_lookup(self@, order_id)
                    == Ok::<OrderView, AidFlowError>(self.orders@[i as int]@),
                Err(e) => order_lookup(self@, order_id) == Err::<OrderView, AidFlowError>(e),
            },
    {
        if self.admin.is_none() {
            return Err(AidFlowError::NotInitialized);
        }
        if order_id < self.orders.len() as u64 {
            Ok(order_id as usize)
        } else {
            Err(AidFlowError::OrderNotFound)
        }
    }

    /// Replaces the order at position `i`.
    fn put_order(&mut self, i: usize, o: PurchaseOrder)
        requires
            i < old(self).orders.len(),
        ensures
            final(self)@ == with_order(old(self)@, i as u64, o@),
            final(self).suppliers == old(self).suppliers,
            final(self).orders@.len() == old(self).orders@.len(),
    {
        let ghost pre = self@;
        self.orders.set(i, o);
        assert(self@.orders =~= pre.orders.update(i as int, o@));
    }

    /// The order's supplier accepts an order in the `Created` state, which
    /// becomes `Accepted`.
    pub fn accept_order(&mut self, supplier: Address, order_id: u64) -> (r: Result<
        (),
        AidFlowError,
    >)
        requires
            old(self).wf(),
        ensures
            final(self).wf(),
            applied(accept_step(old(self)@, supplier@, order_id), old(self)@, final(self)@, r),
    {
        let i = match self.order_index(order_id) {
            Ok(i) => i,
            Err(e) => return Err(e),
        };
        if !self.orders[i].supplier.same_as(&supplier) {
            return Err(AidFlowError::NotDesignatedSupplier);
        }
        if self.orders[i].status != OrderStatus::Created {
            return Err(AidFlowError::OrderNotCreated);
        }
        let ghost pre = self@;
        let mut o = self.orders[i].clone();
        o.status = OrderStatus::Accepted;
        self.put_order(i, o);
        proof {
            let action = Action::AcceptOrder { supplier: supplier@, order_id };
            lemma_step_preserves_valid(pre, action);
        }
        Ok(())
    }

    /// The order's supplier hands in the proof of delivery for an `Accepted`
    /// order, which becomes `Delivered` and keeps the proof.
    pub fn submit_delivery(&mut self, supplier: Address, order_id: u64, proof: String) -> (r:
        Result<(), AidFlowError>)
        requires
            old(self).wf(),
        ensures
            final(self).wf(),
            applied(
                submit_step(old(self)@, supplier@, order_id, proof@),
                old(self)@,
                final(self)@,
                r,
            ),
    {
        let i = match self.order_index(order_id) {
            Ok(i) => i,
            Err(e) => return Err(e),
        };
        if !self.orders[i].supplier.same_as(&supplier) {
            return Err(AidFlowError::NotDesignatedSupplier);
        }
        if self.orders[i].status != OrderStatus::Accepted {
            return Err(AidFlowError::OrderNotAccepted);
        }
        let ghost pre = self@;
        let ghost action = Action::SubmitDelivery { supplier: supplier@, order_id, proof: proof@ };
        let mut o = self.orders[i].clone();
        o.delivery_proof = proof;
        o.status = OrderStatus::Delivered;
        self.put_order(i, o);
        proof {
            lemma_step_preserves_valid(pre, action);
        }
        Ok(())
    }

    /// The order's verifier confirms receipt of a `Delivered` order, which
    /// becomes `Verified`. Returns the order's amount, the payment that is now
    /// due to the supplier.
    pub fn verify_delivery(&mut self, verifier: Address, order_id: u64) -> (r: Result<
        i128,
        AidFlowError,
    >)
        requires
            old(self).wf(),
        ensures
            final(self).wf(),
            applied(verify_step(old(self)@, verifier@, order_id), old(self)@, final(self)@, r),
            r matches Ok(amount) ==> amount == old(self)@.orders[order_id as int].usdc_amount,
    {
        let i = match self.order_index(order_id) {
            Ok(i) => i,
            Err(e) => return Err(e),
        };
        if !self.orders[i].verifier.same_as(&verifier) {
            return Err(AidFlowError::NotAuthorizedVerifier);
        }
        if self.orders[i].status != OrderStatus::Delivered {
            return Err(AidFlowError::DeliveryNotSubmitted);
        }
        let ghost pre = self@;
        let amount = self.orders[i].usdc_amount;
        let mut o = self.orders[i].clone();
        o.status = OrderStatus::Verified;
        self.put_order(i, o);
        proof {
            let action = Action::VerifyDelivery { verifier: verifier@, order_id };
            lemma_step_preserves_valid(pre, action);
        }
        Ok(amount)
    }

    /// The order's NGO marks a `Verified` order as `Paid`, and the order's
    /// amount is added to the supplier's running total.
    pub fn mark_paid(&mut self, ngo: Address, order_id: u64) -> (r: Result<(), AidFlowError>)
        requires
            old(self).wf(),
        ensures
            final(self).wf(),
            applied(mark_paid_step(old(self)@, ngo@, order_id), old(self)@, final(self)@, r),
    {
        let i = match self.order_index(order_id) {
            Ok(i) => i,
            Err(e) => return Err(e),
        };
        if !self.orders[i].ngo.same_as(&ngo) {
            return Err(AidFlowError::NotOriginatingNgo);
        }
        if self.orders[i].status != OrderStatus::Verified {
            return Err(AidFlowError::DeliveryNotVerified);
        }
        let ghost pre = self@;
        let ghost recs = self.suppliers@.map_values(|r: Supplier| r@);
        proof {
            assert(pre.orders[i as int] == self.orders@[i as int]@);
            assert(pre.suppliers.contains_key(pre.orders[i as int].supplier));
        }
        let j = match self.find_supplier(&self.orders[i].supplier) {
            Some(j) => j,
            None => {
                proof {
                    assert(false);
                }
                return Err(AidFlowError::SupplierNotFound);
            },
        };
        let total = match self.suppliers[j].total_paid.checked_add(self.orders[i].usdc_amount) {
            Some(t) => t,
            None => return Err(AidFlowError::PaymentTotalOverflow),
        };
        let mut o = self.orders[i].clone();
        o.status = OrderStatus::Paid;
        self.put_order(i, o);
        let mut rec = self.suppliers[j].clone();
        rec.total_paid = total;
        self.suppliers.set(j, rec);
        proof {
            assert(self.suppliers@.map_values(|r: Supplier| r@) =~= recs.update(j as int, rec@));
            lemma_supplier_map_update(recs, j as int, rec@);
            let action = Action::MarkPaid { ngo: ngo@, order_id };
            assert(self@ == step(pre, action).unwrap());
            lemma_step_preserves_valid(pre, action);
        }
        Ok(())
    }

    /// A party to the order (its NGO, supplier or verifier) flags an order that
    /// is neither `Paid` nor `Cancelled` as `Disputed`, freezing it until the
    /// dispute is resolved.
    pub fn raise_dispute(&mut self, caller: Address, order_id: u64) -> (r: Result<
        (),
        AidFlowError,
    >)
        requires
            old(self).wf(),
        ensures
            final(self).wf(),
            applied(dispute_step(old(self)@, caller@, order_id), old(self)@, final(self)@, r),
    {
        let i = match self.order_index(order_id) {
            Ok(i) => i,
            Err(e) => return Err(e),
        };
        let is_party = self.orders[i].ngo.same_as(&caller) || self.orders[i].supplier.same_as(
            &caller,
        ) || self.orders[i].verifier.same_as(&caller);
        if !is_party {
            return Err(AidFlowError::NotAParty);
        }
        if self.orders[i].status == OrderStatus::Paid || self.orders[i].status
            == OrderStatus::Cancelled {
            return Err(AidFlowError::OrderCompleted);
        }
        let ghost pre = self@;
        let mut o = self.orders[i].clone();
        o.status = OrderStatus::Disputed;
        self.put_order(i, o);
        proof {
            let action = Action::RaiseDispute { caller: caller@, order_id };
            lemma_step_preserves_valid(pre, action);
        }
        Ok(())
    }

    /// The order with the given id.
    pub fn get_order(&self, order_id: u64) -> (r: Result<PurchaseOrder, AidFlowError>)
        requires
            self.wf(),
        ensures
            match r {
                Ok(o) => order_lookup(self@, order_id) == Ok::<OrderView, AidFlowError>(o@),
                Err(e) => order_lookup(self@, order_id) == Err::<OrderView, AidFlowError>(e),
            },
    {
        let i = match self.order_index(order_id) {
            Ok(i) => i,
            Err(e) => return Err(e),
        };
        Ok(self.orders[i].clone())
    }

    /// The ids of all orders, in ascending order.
    pub fn get_order_ids(&self) -> (r: Result<Vec<u64>, AidFlowError>)
        requires
            self.wf(),
        ensures
            match r {
                Ok(ids) => order_ids(self@) == Ok::<Seq<u64>, AidFlowError>(ids@),
                Err(e) => order_ids(self@) == Err::<Seq<u64>, AidFlowError>(e),
            },
    {
        if self.admin.is_none() {
            return Err(AidFlowError::NotInitialized);
        }
        let n = self.orders.len();
        let mut ids: Vec<u64> = Vec::new();
        let mut i: usize = 0;
        while i < n
            invariant
                i <= n,
                n <= u64::MAX,
                ids@.len() == i,
                forall|k: int| 0 <= k < i ==> ids@[k] == k,
            decreases n - i,
        {
            ids.push(i as u64);
            i += 1;
        }
        assert(ids@ =~= Seq::new(self@.orders.len(), |k: int| k as u64));
        Ok(ids)
    }

    /// The record of the supplier with the given wallet.
    pub fn get_supplier(&self, wallet: Address) -> (r: Result<Supplier, AidFlowError>)
        requires
            self.wf(),
        ensures
            match r {
                Ok(s) => supplier_lookup(self@, wallet@) == Ok::<SupplierView, AidFlowError>(s@),
                Err(e) => supplier_lookup(self@, wallet@) == Err::<SupplierView, AidFlowError>(e),
            },
    {
        if self.admin.is_none() {
            return Err(AidFlowError::NotInitialized);
        }
        match self.find_supplier(&wallet) {
            Some(j) => Ok(self.suppliers[j].clone()),
            None => Err(AidFlowError::SupplierNotFound),
        }
    }

    /// The orders, by id.
    pub fn orders(&self) -> (r: &Vec<PurchaseOrder>)
        ensures
            r@.map_values(|o: PurchaseOrder| o@) == self@.orders,
    {
        &self.orders
    }

    /// The supplier records, no wallet twice.
    pub fn suppliers(&self) -> (r: &Vec<Supplier>)
        requires
            self.wf(),
        ensures
            wallets_distinct(r@.map_values(|x: Supplier| x@)),
            supplier_map(r@.map_values(|x: Supplier| x@)) == self@.suppliers,
    {
        &self.suppliers
    }

    /// Rebuilds a ledger from its administrator, its orders and its supplier
    /// records, as `admin`, `orders` and `suppliers` hand them out. Returns
    /// `None` exactly when the parts do not form a ledger.
    pub fn from_parts(admin: Option<Address>, orders: Vec<PurchaseOrder>, suppliers: Vec<
        Supplier,
    >) -> (r: Option<AidFlow>)
        ensures
            match r {
                Some(f) => f.wf() && f@ == parts_view(admin, orders@, suppliers@),
                None => !parts_ok(admin, orders@, suppliers@),
            },
    {
        let f = AidFlow { admin, orders, suppliers };
        if f.check() {
            Some(f)
        } else {
            None
        }
    }

    /// Whether the ledger keeps its invariant.
    fn check(&self) -> (b: bool)
        ensures
            b == self.wf(),
    {
        let ghost recs = self.suppliers@.map_values(|r: Supplier| r@);
        let ghost ords = self.orders@.map_values(|o: PurchaseOrder| o@);
        let m = self.suppliers.len();
        let mut i: usize = 0;
        while i < m
            invariant
                i <= m,
                m == recs.len(),
                recs == self.suppliers@.map_values(|r: Supplier| r@),
                forall|a: int, b: int|
                    0 <= a < i && 0 <= b < i && a != b ==> (#[trigger] recs[a]).wallet != (
                    #[trigger] recs[b]).wallet,
                forall|a: int| 0 <= a < i ==> (#[trigger] recs[a]).is_approved,
                forall|a: int| 0 <= a < i ==> (#[trigger] recs[a]).total_paid >= 0,
            decreases m - i,
        {
            if !self.suppliers[i].is_approved || self.suppliers[i].total_paid < 0 {
                proof {
                    if wallets_distinct(recs) {
                        lemma_supplier_map_at(recs, i as int);
                        assert(self@.suppliers.contains_key(recs[i as int].wallet));
                    }
                }
                return false;
            }
            let mut j: usize = 0;
            while j < i
                invariant
                    j <= i,
                    i < m,
                    m == recs.len(),
                    recs == self.suppliers@.map_values(|r: Supplier| r@),
                    forall|b: int| 0 <= b < j ==> (#[trigger] recs[b]).wallet != recs[i as int].wallet,
                decreases i - j,
            {
                if self.suppliers[j].wallet.same_as(&self.suppliers[i].wallet) {
                    proof {
                        assert(recs[j as int].wallet == recs[i as int].wallet);
                    }
                    return false;
                }
                j += 1;
            }
            i += 1;
        }
        assert(wallets_distinct(recs));
        if self.admin.is_none() && (self.orders.len() > 0 || m > 0) {
            proof {
                if m > 0 {
                    lemma_supplier_map_at(recs, 0);
                }
            }
            return false;
        }
        let n = self.orders.len();
        let mut k: usize = 0;
        while k < n
            invariant
                k <= n,
                n == ords.len(),
                ords == self.orders@.map_values(|o: PurchaseOrder| o@),
                recs == self.suppliers@.map_values(|r: Supplier| r@),
                wallets_distinct(recs),
                forall|a: int| 0 <= a < k ==> (#[trigger] ords[a]).id == a,
                forall|a: int| 0 <= a < k ==> (#[trigger] ords[a]).usdc_amount > 0,
                forall|a: int|
                    0 <= a < k ==> supplier_map(recs).contains_key((#[trigger] ords[a]).supplier),
            decreases n - k,
        {
            proof {
                assert(self@.orders[k as int] == ords[k as int]);
            }
            if self.orders[k].id != k as u64 || self.orders[k].usdc_amount <= 0 {
                proof {
                    assert(self@.orders[k as int].id != k || self@.orders[k as int].usdc_amount <= 0);
                    assert(!valid(self@));
                }
                return false;
            }
            if self.find_supplier(&self.orders[k].supplier).is_none() {
                proof {
                    assert(!self@.suppliers.contains_key(self@.orders[k as int].supplier));
                    assert(!valid(self@));
                }
                return false;
            }
            k += 1;
        }
        let mut j: usize = 0;
        while j < m
            invariant
                j <= m,
                m == recs.len(),
                n == ords.len(),
                ords == self.orders@.map_values(|o: PurchaseOrder| o@),
                recs == self.suppliers@.map_values(|r: Supplier| r@),
                wallets_distinct(recs),
                forall|a: int| 0 <= a < n ==> (#[trigger] ords[a]).usdc_amount > 0,
                forall|a: int|
                    0 <= a < j ==> (#[trigger] recs[a]).total_paid == paid_sum(ords, recs[a].wallet),
            decreases m - j,
        {
            proof {
                assert(self@.orders == ords);
            }
            let ok = match self.paid_total(&self.suppliers[j].wallet) {
                Some(t) => t == self.suppliers[j].total_paid,
                None => false,
            };
            if !ok {
                proof {
                    lemma_supplier_map_at(recs, j as int);
                    assert(self@.suppliers.contains_key(recs[j as int].wallet));
                }
                return false;
            }
            j += 1;
        }
        proof {
            assert forall|w: Seq<char>| #[trigger] self@.suppliers.contains_key(w) implies {
                &&& self@.suppliers[w].wallet == w
                &&& self@.suppliers[w].is_approved
                &&& self@.suppliers[w].total_paid >= 0
                &&& self@.suppliers[w].total_paid == paid_sum(self@.orders, w)
            } by {
                let a = choose|a: int| 0 <= a < recs.len() && (#[trigger] recs[a]).wallet == w;
                lemma_supplier_map_at(recs, a);
            }
        }
        true
    }

    /// The sum of the amounts of the paid orders of the wallet, or `None` when
    /// it does not fit in `i128`. Needs positive amounts.
    fn paid_total(&self, wallet: &Address) -> (r: Option<i128>)
        requires
            forall|a: int|
                0 <= a < self@.orders.len() ==> (#[trigger] self@.orders[a]).usdc_amount > 0,
        ensures
            match r {
                Some(t) => t == paid_sum(self@.orders, wallet@),
                None => paid_sum(self@.orders, wallet@) > i128::MAX,
            },
    {
        let ghost ords = self@.orders;
        let n = self.orders.len();
        let mut acc: i128 = 0;
        let mut k: usize = 0;
        while k < n
            invariant
                k <= n,
                n == ords.len(),
                ords == self.orders@.map_values(|o: PurchaseOrder| o@),
                forall|a: int| 0 <= a < n ==> (#[trigger] ords[a]).usdc_amount > 0,
                acc == paid_sum(ords.take(k as int), wallet@),
            decreases n - k,
        {
            proof {
                assert(ords.take(k + 1).drop_last() =~= ords.take(k as int));
                assert(ords[k as int] == self.orders@[k as int]@);
            }
            if self.orders[k].supplier.same_as(wallet) && self.orders[k].status
                == OrderStatus::Paid {
                match acc.checked_add(self.orders[k].usdc_amount) {
                    Some(v) => {
                        acc = v;
                    },
                    None => {
                        proof {
                            lemma_paid_sum_prefix_le(ords, k + 1, wallet@);
                        }
                        return None;
                    },
                }
            }
            k += 1;
        }
        proof {
            assert(ords.take(n as int) =~= ords);
        }
        Some(acc)
    }
}

} // verus!
