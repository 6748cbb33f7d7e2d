use crate::bom::{bom_lines, has_product, is_current_product, product_matches, BomLine};
use crate::error::{CoreError, Entity, Field};
use crate::ledger::entry_of;
use crate::records::{FlowType, SpecificationHistory, Store, Transaction, TransactionItem};
use vstd::prelude::*;

verus! {

/// The actor that automatic stock deductions are attributed to.
pub const SYSTEM_ACTOR: u128 = 0x9f175978_100f_431e_97ad_d4f1ab54ba76;

/// One line of a sale request.
#[derive(Clone, Copy, Debug, PartialEq, Eq, Structural)]
pub struct RequestCreateTransactionItem {
    pub product_reference_id: u128,
    pub product_quantity: i32,
}

/// A sale request: an optional actor and note, and its lines in order.
#[derive(Clone, Debug)]
pub struct RequestCreateTransaction {
    pub transaction_id: Option<u128>,
    pub order_status: Option<String>,
    pub payment_status: Option<String>,
    pub items: Vec<RequestCreateTransactionItem>,
    pub created_by: Option<u128>,
    pub note: Option<String>,
}

/// One outbound movement that a sale line causes: `consumed` units of the specification at
/// the frozen `unit_price`, worth `line_value` (both prices in hundredths).
#[derive(Clone, Copy, Debug, PartialEq, Eq, Structural)]
pub struct PlannedLine {
    pub specification_id: u128,
    pub consumed: i64,
    pub unit_price: i64,
    pub line_value: i64,
}

/// A costed sale line: the product row it resolved to, the quantity sold and its movements.
#[derive(Clone, Debug)]
pub struct PlannedItem {
    pub product_index: usize,
    pub product_quantity: i32,
    pub lines: Vec<PlannedLine>,
}

/// A costed sale line as a mathematical value.
pub type ItemPlan = (int, i32, Seq<PlannedLine>);

impl View for PlannedItem {
    type V = ItemPlan;

    open spec fn view(&self) -> ItemPlan {
        (self.product_index as int, self.product_quantity, self.lines@)
    }
}

/// The value of a sequence of costed sale lines.
pub open spec fn plan_view(v: Seq<PlannedItem>) -> Seq<ItemPlan> {
    v.map_values(|p: PlannedItem| p@)
}

/// The movement of one recipe entry when `qty` units are sold. The consumed quantity is
/// `quantity_per_unit * qty`; its value is that quantity times the frozen unit price, which
/// is exact in hundredths, so no rounding arises.
pub open spec fn line_plan(b: BomLine, qty: i32) -> Result<PlannedLine, CoreError> {
    let consumed = b.quantity_per_unit * qty;
    match b.latest_unit_price {
        None => Err(CoreError::NotFound(Entity::Price)),
        Some(p) => if consumed <= 0 {
            Err(CoreError::ValidationFailed(Field::Quantity))
        } else if p < 0 {
            Err(CoreError::ValidationFailed(Field::UnitPrice))
        } else if consumed * p > i64::MAX {
            Err(CoreError::ArithmeticFailure)
        } else {
            Ok(
                PlannedLine {
                    specification_id: b.specification_id,
                    consumed: consumed as i64,
                    unit_price: p,
                    line_value: (consumed * p) as i64,
                },
            )
        },
    }
}

/// The movements of a whole recipe, or the error of its first failing entry.
pub open spec fn lines_plan(bs: Seq<BomLine>, qty: i32) -> Result<Seq<PlannedLine>, CoreError>
    decreases bs.len(),
{
    if bs.len() == 0 {
        Ok(Seq::empty())
    } else {
        match line_plan(bs[0], qty) {
            Err(e) => Err(e),
            Ok(l) => match lines_plan(bs.drop_first(), qty) {
                Err(e) => Err(e),
                Ok(rest) => Ok(seq![l] + rest),
            },
        }
    }
}

/// The costing of one sale line against store `s`.
pub open spec fn item_plan(s: Store, branch_id: u128, item: RequestCreateTransactionItem) -> Result<
    ItemPlan,
    CoreError,
> {
    if item.product_quantity <= 0 {
        Err(CoreError::ValidationFailed(Field::Quantity))
    } else if !has_product(s.products@, branch_id, item.product_reference_id) {
        Err(CoreError::NotFound(Entity::Product))
    } else {
        let i = choose|i: int| is_current_product(s.products@, branch_id, item.product_reference_id, i);
        match lines_plan(bom_lines(s, s.products@[i].id), item.product_quantity) {
            Err(e) => Err(e),
            Ok(ls) => Ok((i, item.product_quantity, ls)),
        }
    }
}

/// The costing of all lines of a sale, or the error of its first failing line.
pub open spec fn items_plan(
    s: Store,
    branch_id: u128,
    items: Seq<RequestCreateTransactionItem>,
) -> Result<Seq<ItemPlan>, CoreError>
    decreases items.len(),
{
    if items.len() == 0 {
        Ok(Seq::empty())
    } else {
        match item_plan(s, branch_id, items[0]) {
            Err(e) => Err(e),
            Ok(p) => match items_plan(s, branch_id, items.drop_first()) {
                Err(e) => Err(e),
                Ok(rest) => Ok(seq![p] + rest),
            },
        }
    }
}

/// The actor of a request, if named, is a known user.
pub open spec fn actor_known(s: Store, created_by: Option<u128>) -> bool {
    match created_by {
        None => true,
        Some(u) => s.users@.contains(u),
    }
}

/// What posting one sale into `s` decides: the branch must exist, then the actor if one
/// is named, then every line must cost.
pub open spec fn transaction_plan(s: Store, branch_id: u128, req: RequestCreateTransaction) -> Result<
    Seq<ItemPlan>,
    CoreError,
> {
    if !s.branches@.contains(branch_id) {
        Err(CoreError::NotFound(Entity::Branch))
    } else if !actor_known(s, req.created_by) {
        Err(CoreError::NotFound(Entity::Actor))
    } else {
        items_plan(s, branch_id, req.items@)
    }
}

/// The transaction item rows written for a costed sale that becomes transaction `tx`.
pub open spec fn item_rows(s: Store, plan: Seq<ItemPlan>, tx: int, now: i64) -> Seq<TransactionItem> {
    plan.map_values(
        |p: ItemPlan|
            TransactionItem {
                transaction_id: tx as usize,
                product_id: s.products@[p.0].id,
                product_name: s.products@[p.0].name,
                product_reference_id: s.products@[p.0].reference_id,
                product_quantity: p.1,
                created_at: now,
            },
    )
}

/// The outbound ledger rows of the movements of one sale line, linked to item `item`.
pub open spec fn line_rows(lines: Seq<PlannedLine>, item: int, now: i64) -> Seq<SpecificationHistory> {
    lines.map_values(
        |l: PlannedLine|
            entry_of(
                l.specification_id,
                FlowType::Out,
                l.consumed,
                l.line_value,
                l.unit_price,
                Some(item as usize),
                SYSTEM_ACTOR,
                None,
                now,
            ),
    )
}

/// The outbound ledger rows of a costed sale whose first item row is at position `base`.
pub open spec fn ledger_rows(plan: Seq<ItemPlan>, base: int, now: i64) -> Seq<SpecificationHistory>
    decreases plan.len(),
{
    if plan.len() == 0 {
        Seq::empty()
    } else {
        ledger_rows(plan.drop_last(), base, now) + line_rows(
            plan.last().2,
            base + plan.len() - 1,
            now,
        )
    }
}

/// `new` is `old` with one costed sale written: its transaction row, its item rows and the
/// outbound ledger rows of every line, in order; nothing else changes.
pub open spec fn posted(
    old: Store,
    new: Store,
    branch_id: u128,
    created_by: Option<u128>,
    note: Option<String>,
    plan: Seq<ItemPlan>,
    now: i64,
) -> bool {
    &&& new.branches == old.branches
    &&& new.users == old.users
    &&& new.specifications == old.specifications
    &&& new.products == old.products
    &&& new.product_specifications == old.product_specifications
    &&& new.transactions@ == old.transactions@.push(
        Transaction { branch_id, created_by, note, created_at: now },
    )
    &&& new.transaction_items@ == old.transaction_items@ + item_rows(
        old,
        plan,
        old.transactions@.len() as int,
        now,
    )
    &&& new.ledger@ == old.ledger@ + ledger_rows(plan, old.transaction_items@.len() as int, now)
}

/// At most one product is the current one of a branch and reference.
proof fn lemma_current_unique(s: Store, branch_id: u128, reference_id: u128, i: int, k: int)
    requires
        is_current_product(s.products@, branch_id, reference_id, i),
        is_current_product(s.products@, branch_id, reference_id, k),
    ensures
        i == k,
{
    if i < k {
        assert(product_matches(s.products@[k], branch_id, reference_id));
    } else if k < i {
        assert(product_matches(s.products@[i], branch_id, reference_id));
    }
}

/// Costs the movement of one recipe entry; see `line_plan`.
pub fn plan_line(b: &BomLine, qty: i32) -> (r: Result<PlannedLine, CoreError>)
    ensures
        r == line_plan(*b, qty),
{
    proof {
        let a = b.quantity_per_unit as int;
        let c = qty as int;
        assert(-0x4000_0000_0000_0000 <= a * c <= 0x4000_0000_0000_0000) by (nonlinear_arith)
            requires
                -0x8000_0000 <= a <= 0x7fff_ffff,
                -0x8000_0000 <= c <= 0x7fff_ffff,
        ;
    }
    let consumed: i64 = (b.quantity_per_unit as i64) * (qty as i64);
    match b.latest_unit_price {
        None => Err(CoreError::NotFound(Entity::Price)),
        Some(p) => {
            if consumed <= 0 {
                return Err(CoreError::ValidationFailed(Field::Quantity));
            }
            if p < 0 {
                return Err(CoreError::ValidationFailed(Field::UnitPrice));
            }
            proof {
                let a = consumed as int;
                let c = p as int;
                assert(0 <= a * c <= 0x7fff_ffff_ffff_ffff * 0x7fff_ffff_ffff_ffff) by (nonlinear_arith)
                    requires
                        0 < a <= 0x7fff_ffff_ffff_ffff,
                        0 <= c <= 0x7fff_ffff_ffff_ffff,
                ;
            }
            let value: i128 = (consumed as i128) * (p as i128);
            if value > i64::MAX as i128 {
                return Err(CoreError::ArithmeticFailure);
            }
            Ok(
                PlannedLine {
                    specification_id: b.specification_id,
                    consumed,
                    unit_price: p,
                    line_value: value as i64,
                },
            )
        },
    }
}

/// Costs every entry of a recipe for `qty` sold units; see `lines_plan`.
pub fn plan_lines(bs: &Vec<BomLine>, qty: i32) -> (r: Result<Vec<PlannedLine>, CoreError>)
    ensures
        match r {
            Ok(v) => lines_plan(bs@, qty) == Ok::<Seq<PlannedLine>, CoreError>(v@),
            Err(e) => lines_plan(bs@, qty) == Err::<Seq<PlannedLine>, CoreError>(e),
        },
{
    let mut out: Vec<PlannedLine> = Vec::new();
    let mut i: usize = 0;
    proof {
        assert(bs@.skip(0) =~= bs@);
        if let Ok(rest) = lines_plan(bs@, qty) {
            assert(out@ + rest =~= rest);
        }
    }
    while i < bs.len()
        invariant
            i <= bs@.len(),
            lines_plan(bs@, qty) == match lines_plan(bs@.skip(i as int), qty) {
                Ok(rest) => Ok::<Seq<PlannedLine>, CoreError>(out@ + rest),
                Err(e) => Err(e),
            },
        decreases bs@.len() - i,
    {
        proof {
            let tail = bs@.skip(i as int);
            assert(tail[0] == bs@[i as int]);
            assert(tail.drop_first() =~= bs@.skip(i + 1));
        }
        match plan_line(&bs[i], qty) {
            Err(e) => {
                return Err(e);
            },
            Ok(l) => {
                proof {
                    match lines_plan(bs@.skip(i + 1), qty) {
                        Ok(rest) => {
                            assert(out@ + (seq![l] + rest) =~= out@.push(l) + rest);
                        },
                        Err(_) => {},
                    }
                }
                out.push(l);
            },
        }
        i = i + 1;
    }
    proof {
        assert(bs@.skip(i as int) =~= Seq::<BomLine>::empty());
        assert(out@ + Seq::<PlannedLine>::empty() =~= out@);
    }
    Ok(out)
}

/// `x` is one of `ids`.
pub fn contains_id(ids: &Vec<u128>, x: u128) -> (r: bool)
    ensures
        r == ids@.contains(x),
{
    let mut i: usize = 0;
    while i < ids.len()
        invariant
            i <= ids@.len(),
            forall|k: int| 0 <= k < i ==> ids@[k] != x,
        decreases ids@.len() - i,
    {
        if ids[i] == x {
            assert(ids@[i as int] == x);
            return true;
        }
        i = i + 1;
    }
    false
}

impl Store {
    /// Costs one sale line against the store; see `item_plan`.
    pub fn plan_item(&self, branch_id: u128, item: RequestCreateTransactionItem) -> (r: Result<PlannedItem, CoreError>)
        ensures
            match r {
                Ok(p) => item_plan(*self, branch_id, item) == Ok::<ItemPlan, CoreError>(p@)
                    && p.product_index < self.products@.len(),
                Err(e) => item_plan(*self, branch_id, item) == Err::<ItemPlan, CoreError>(e),
            },
    {
        if item.product_quantity <= 0 {
            return Err(CoreError::ValidationFailed(Field::Quantity));
        }
        match self.resolve(branch_id, item.product_reference_id) {
            Err(e) => Err(e),
            Ok(rp) => {
                proof {
                    let i = choose|i: int|
                        is_current_product(self.products@, branch_id, item.product_reference_id, i);
                    lemma_current_unique(*self, branch_id, item.product_reference_id, i, rp.product_index as int);
                }
                match plan_lines(&rp.lines, item.product_quantity) {
                    Err(e) => Err(e),
                    Ok(lines) => Ok(
                        PlannedItem {
                            product_index: rp.product_index,
                            product_quantity: item.product_quantity,
                            lines,
                        },
                    ),
                }
            },
        }
    }

    /// Costs all lines of a sale in order; see `items_plan`.
    pub fn plan_items(&self, branch_id: u128, items: &Vec<RequestCreateTransactionItem>) -> (r: Result<
        Vec<PlannedItem>,
        CoreError,
    >)
        ensures
            match r {
                Ok(v) => items_plan(*self, branch_id, items@) == Ok::<Seq<ItemPlan>, CoreError>(plan_view(v@))
                    && forall|k: int| 0 <= k < v@.len() ==> (#[trigger] v@[k]).product_index < self.products@.len(),
                Err(e) => items_plan(*self, branch_id, items@) == Err::<Seq<ItemPlan>, CoreError>(e),
            },
    {
        let mut out: Vec<PlannedItem> = Vec::new();
        let mut i: usize = 0;
        proof {
            assert(items@.skip(0) =~= items@);
            if let Ok(rest) = items_plan(*self, branch_id, items@) {
                assert(plan_view(out@) + rest =~= rest);
            }
        }
        while i < items.len()
            invariant
                i <= items@.len(),
                items_plan(*self, branch_id, items@) == match items_plan(*self, branch_id, items@.skip(i as int)) {
                    Ok(rest) => Ok::<Seq<ItemPlan>, CoreError>(plan_view(out@) + rest),
                    Err(e) => Err(e),
                },
                forall|k: int| 0 <= k < out@.len() ==> (#[trigger] out@[k]).product_index < self.products@.len(),
            decreases items@.len() - i,
        {
            proof {
                let tail = items@.skip(i as int);
                assert(tail[0] == items@[i as int]);
                assert(tail.drop_first() =~= items@.skip(i + 1));
            }
            match self.plan_item(branch_id, items[i]) {
                Err(e) => {
                    return Err(e);
                },
                Ok(p) => {
                    proof {
                        assert(plan_view(out@.push(p)) =~= plan_view(out@).push(p@));
                        match items_plan(*self, branch_id, items@.skip(i + 1)) {
                            Ok(rest) => {
                                assert(plan_view(out@) + (seq![p@] + rest) =~= plan_view(out@).push(p@) + rest);
                            },
                            Err(_) => {},
                        }
                    }
                    out.push(p);
                },
            }
            i = i + 1;
        }
        proof {
            assert(items@.skip(i as int) =~= Seq::<RequestCreateTransactionItem>::empty());
            assert(plan_view(out@) + Seq::<ItemPlan>::empty() =~= plan_view(out@));
        }
        Ok(out)
    }

    /// Decides a sale against the store without writing anything; see `transaction_plan`.
    pub fn plan_transaction(&self, branch_id: u128, req: &RequestCreateTransaction) -> (r: Result<
        Vec<PlannedItem>,
        CoreError,
    >)
        ensures
            match r {
                Ok(v) => transaction_plan(*self, branch_id, *req) == Ok::<Seq<ItemPlan>, CoreError>(plan_view(v@))
                    && forall|k: int| 0 <= k < v@.len() ==> (#[trigger] v@[k]).product_index < self.products@.len(),
                Err(e) => transaction_plan(*self, branch_id, *req) == Err::<Seq<ItemPlan>, CoreError>(e),
            },
    {
        if !contains_id(&self.branches, branch_id) {
            return Err(CoreError::NotFound(Entity::Branch));
        }
        if let Some(u) = req.created_by {
            if !contains_id(&self.users, u) {
                return Err(CoreError::NotFound(Entity::Actor));
            }
        }
        self.plan_items(branch_id, &req.items)
    }

    /// Writes a costed sale: its transaction row, one item row per line, and one outbound
    /// ledger row per movement, attributed to `SYSTEM_ACTOR`. Returns the transaction's position.
    pub fn apply_plan(
        &mut self,
        branch_id: u128,
        created_by: Option<u128>,
        note: Option<String>,
        plan: &Vec<PlannedItem>,
        now: i64,
    ) -> (r: usize)
        requires
            forall|k: int| 0 <= k < plan@.len() ==> (#[trigger] plan@[k]).product_index < old(self).products@.len(),
        ensures
            r == old(self).transactions@.len(),
            posted(*old(self), *final(self), branch_id, created_by, note, plan_view(plan@), now),
    {
        let ghost s0 = *self;
        let ghost pv = plan_view(plan@);
        let ghost base = s0.transaction_items@.len() as int;
        let tx = self.transactions.len();
        self.transactions.push(Transaction { branch_id, created_by, note, created_at: now });
        let mut k: usize = 0;
        proof {
            assert(pv.take(0) =~= Seq::<ItemPlan>::empty());
            assert(self.transaction_items@ =~= s0.transaction_items@ + item_rows(s0, pv.take(0), tx as int, now));
            assert(self.ledger@ =~= s0.ledger@ + ledger_rows(pv.take(0), base, now));
        }
        while k < plan.len()
            invariant
                k <= plan@.len(),
                pv == plan_view(plan@),
                tx == s0.transactions@.len(),
                base == s0.transaction_items@.len(),
                forall|j: int| 0 <= j < plan@.len() ==> (#[trigger] plan@[j]).product_index < s0.products@.len(),
                self.branches == s0.branches,
                self.users == s0.users,
                self.specifications == s0.specifications,
                self.products == s0.products,
                self.product_specifications == s0.product_specifications,
                self.transactions@ == s0.transactions@.push(Transaction { branch_id, created_by, note, created_at: now }),
                self.transaction_items@ == s0.transaction_items@ + item_rows(s0, pv.take(k as int), tx as int, now),
                self.ledger@ == s0.ledger@ + ledger_rows(pv.take(k as int), base, now),
            decreases plan@.len() - k,
        {
            let p = &plan[k];
            let item_index = self.transaction_items.len();
            let pi = p.product_index;
            let product_id = self.products[pi].id;
            let product_name = self.products[pi].name.clone();
            let reference_id = self.products[pi].reference_id;
            self.transaction_items.push(
                TransactionItem {
                    transaction_id: tx,
                    product_id,
                    product_name,
                    product_reference_id: reference_id,
                    product_quantity: p.product_quantity,
                    created_at: now,
                },
            );
            proof {
                assert(item_index == base + k);
                assert(pv[k as int] == p@);
                assert(item_rows(s0, pv.take(k + 1), tx as int, now) =~= item_rows(s0, pv.take(k as int), tx as int, now).push(
                    self.transaction_items@.last()));
                assert(self.transaction_items@ =~= s0.transaction_items@ + item_rows(s0, pv.take(k + 1), tx as int, now));
                assert(p.lines@.take(0) =~= Seq::<PlannedLine>::empty());
                assert(self.ledger@ =~= s0.ledger@ + ledger_rows(pv.take(k as int), base, now) + line_rows(
                    p.lines@.take(0), item_index as int, now));
            }
            let mut j: usize = 0;
            while j < p.lines.len()
                invariant
                    j <= p.lines@.len(),
                    self.ledger@ == s0.ledger@ + ledger_rows(pv.take(k as int), base, now) + line_rows(
                        p.lines@.take(j as int),
                        item_index as int,
                        now,
                    ),
                    self.branches == s0.branches,
                    self.users == s0.users,
                    self.specifications == s0.specifications,
                    self.products == s0.products,
                    self.product_specifications == s0.product_specifications,
                    self.transactions@ == s0.transactions@.push(Transaction { branch_id, created_by, note, created_at: now }),
                    self.transaction_items@ == s0.transaction_items@ + item_rows(s0, pv.take(k + 1), tx as int, now),
                decreases p.lines@.len() - j,
            {
                let l = p.lines[j];
                self.ledger.push(
                    SpecificationHistory {
                        specification_id: l.specification_id,
                        flow_type: FlowType::Out,
                        quantity: l.consumed,
                        price: l.line_value,
                        unit_price: l.unit_price,
                        transaction_item_id: Some(item_index),
                        created_by: SYSTEM_ACTOR,
                        note: None,
                        created_at: now,
                    },
                );
                proof {
                    assert(line_rows(p.lines@.take(j + 1), item_index as int, now) =~= line_rows(
                        p.lines@.take(j as int), item_index as int, now).push(self.ledger@.last()));
                    assert(self.ledger@ =~= s0.ledger@ + ledger_rows(pv.take(k as int), base, now) + line_rows(
                        p.lines@.take(j + 1), item_index as int, now));
                }
                j = j + 1;
            }
            proof {
                assert(p.lines@.take(j as int) =~= p.lines@);
                let next = pv.take(k + 1);
                assert(next.drop_last() =~= pv.take(k as int));
                assert(next.last() == p@);
                assert(ledger_rows(next, base, now) == ledger_rows(pv.take(k as int), base, now) + line_rows(p.lines@, base + k, now));
                assert(self.ledger@ =~= s0.ledger@ + ledger_rows(next, base, now));
            }
            k = k + 1;
        }
        proof {
            assert(pv.take(k as int) =~= pv);
        }
        tx
    }

    /// Posts one sale as a unit of work: either every item row and every outbound ledger
    /// row is written, or, on the first failure, nothing is and the error is returned.
    pub fn process_create(&mut self, branch_id: u128, req: &RequestCreateTransaction, now: i64) -> (r: Result<
        usize,
        CoreError,
    >)
        ensures
            match transaction_plan(*old(self), branch_id, *req) {
                Err(e) => r == Err::<usize, CoreError>(e) && *final(self) == *old(self),
                Ok(plan) => r == Ok::<usize, CoreError>(old(self).transactions@.len() as usize) && posted(
                    *old(self),
                    *final(self),
                    branch_id,
                    req.created_by,
                    req.note,
                    plan,
                    now,
                ),
            },
    {
        let plan = match self.plan_transaction(branch_id, req) {
            Err(e) => {
                return Err(e);
            },
            Ok(plan) => plan,
        };
        let note = match &req.note {
            Some(n) => Some(n.clone()),
            None => None,
        };
        let tx = self.apply_plan(branch_id, req.created_by, note, &plan, now);
        Ok(tx)
    }
}

/// Every actor named by the requests is a known user.
pub open spec fn actors_known(s: Store, reqs: Seq<RequestCreateTransaction>) -> bool {
    forall|k: int| 0 <= k < reqs.len() ==> actor_known(s, (#[trigger] reqs[k]).created_by)
}

/// The costing of every sale of a batch, or the error of the first sale that fails.
pub open spec fn plans_of(s: Store, branch_id: u128, reqs: Seq<RequestCreateTransaction>) -> Result<
    Seq<Seq<ItemPlan>>,
    CoreError,
>
    decreases reqs.len(),
{
    if reqs.len() == 0 {
        Ok(Seq::empty())
    } else {
        match items_plan(s, branch_id, reqs[0].items@) {
            Err(e) => Err(e),
            Ok(p) => match plans_of(s, branch_id, reqs.drop_first()) {
                Err(e) => Err(e),
                Ok(rest) => Ok(seq![p] + rest),
            },
        }
    }
}

/// What posting a batch into `s` decides: the branch must exist, every named actor must be
/// known, then every sale, costed against `s` itself, must succeed.
pub open spec fn bulk_plan(s: Store, branch_id: u128, reqs: Seq<RequestCreateTransaction>) -> Result<
    Seq<Seq<ItemPlan>>,
    CoreError,
> {
    if !s.branches@.contains(branch_id) {
        Err(CoreError::NotFound(Entity::Branch))
    } else if !actors_known(s, reqs) {
        Err(CoreError::NotFound(Entity::Actor))
    } else {
        plans_of(s, branch_id, reqs)
    }
}

/// `new` is `old` with the costed sales of a batch written one after another, in order.
pub open spec fn bulk_posted(
    old: Store,
    new: Store,
    branch_id: u128,
    reqs: Seq<RequestCreateTransaction>,
    plans: Seq<Seq<ItemPlan>>,
    now: i64,
) -> bool
    decreases reqs.len(),
{
    if reqs.len() == 0 {
        new == old
    } else {
        exists|mid: Store|
            bulk_posted(old, mid, branch_id, reqs.drop_last(), plans.drop_last(), now)
                && #[trigger] posted(mid, new, branch_id, reqs.last().created_by, reqs.last().note, plans.last(), now)
    }
}

/// The value of the costed sales of a batch.
pub open spec fn plans_view(v: Seq<Vec<PlannedItem>>) -> Seq<Seq<ItemPlan>> {
    v.map_values(|x: Vec<PlannedItem>| plan_view(x@))
}

impl Store {
    /// Posts a batch of sales as one unit of work. Every sale is costed against the store as
    /// it was when the call began; on the first failure nothing at all is written and that
    /// error is returned. On success the positions of the new transactions come back in order.
    pub fn bulk_create(&mut self, branch_id: u128, reqs: &Vec<RequestCreateTransaction>, now: i64) -> (r: Result<
        Vec<usize>,
        CoreError,
    >)
        ensures
            match bulk_plan(*old(self), branch_id, reqs@) {
                Err(e) => r == Err::<Vec<usize>, CoreError>(e) && *final(self) == *old(self),
                Ok(plans) => r is Ok && r->Ok_0@.len() == reqs@.len() && (forall|k: int|
                    0 <= k < reqs@.len() ==> #[trigger] r->Ok_0@[k] == old(self).transactions@.len() + k)
                    && bulk_posted(*old(self), *final(self), branch_id, reqs@, plans, now),
            },
    {
        if !contains_id(&self.branches, branch_id) {
            return Err(CoreError::NotFound(Entity::Branch));
        }
        let mut i: usize = 0;
        while i < reqs.len()
            invariant
                i <= reqs@.len(),
                *self == *old(self),
                self.branches@.contains(branch_id),
                forall|k: int| 0 <= k < i ==> actor_known(*self, (#[trigger] reqs@[k]).created_by),
            decreases reqs@.len() - i,
        {
            if let Some(u) = reqs[i].created_by {
                if !contains_id(&self.users, u) {
                    assert(!actor_known(*self, reqs@[i as int].created_by));
                    return Err(CoreError::NotFound(Entity::Actor));
                }
            }
            i = i + 1;
        }
        let mut plans: Vec<Vec<PlannedItem>> = Vec::new();
        i = 0;
        proof {
            assert(reqs@.skip(0) =~= reqs@);
            if let Ok(rest) = plans_of(*self, branch_id, reqs@) {
                assert(plans_view(plans@) + rest =~= rest);
            }
        }
        while i < reqs.len()
            invariant
                i <= reqs@.len(),
                *self == *old(self),
                self.branches@.contains(branch_id),
                actors_known(*self, reqs@),
                plans_of(*self, branch_id, reqs@) == match plans_of(*self, branch_id, reqs@.skip(i as int)) {
                    Ok(rest) => Ok::<Seq<Seq<ItemPlan>>, CoreError>(plans_view(plans@) + rest),
                    Err(e) => Err(e),
                },
                plans@.len() == i,
                forall|a: int, b: int|
                    0 <= a < plans@.len() && 0 <= b < plans@[a]@.len() ==> (#[trigger] plans@[a]@[b]).product_index
                        < self.products@.len(),
            decreases reqs@.len() - i,
        {
            proof {
                let tail = reqs@.skip(i as int);
                assert(tail[0] == reqs@[i as int]);
                assert(tail.drop_first() =~= reqs@.skip(i + 1));
            }
            match self.plan_items(branch_id, &reqs[i].items) {
                Err(e) => {
                    return Err(e);
                },
                Ok(p) => {
                    proof {
                        assert(plans_view(plans@.push(p)) =~= plans_view(plans@).push(plan_view(p@)));
                        match plans_of(*self, branch_id, reqs@.skip(i + 1)) {
                            Ok(rest) => {
                                assert(plans_view(plans@) + (seq![plan_view(p@)] + rest) =~= plans_view(plans@).push(
                                    plan_view(p@)) + rest);
                            },
                            Err(_) => {},
                        }
                    }
                    plans.push(p);
                },
            }
            i = i + 1;
        }
        proof {
            assert(reqs@.skip(i as int) =~= Seq::<RequestCreateTransaction>::empty());
            assert(plans_view(plans@) + Seq::<Seq<ItemPlan>>::empty() =~= plans_view(plans@));
        }
        let ghost s0 = *self;
        let ghost pvs = plans_view(plans@);
        let mut ids: Vec<usize> = Vec::new();
        i = 0;
        proof {
            assert(reqs@.take(0).len() == 0);
        }
        while i < reqs.len()
            invariant
                i <= reqs@.len(),
                plans@.len() == reqs@.len(),
                pvs == plans_view(plans@),
                forall|a: int, b: int|
                    0 <= a < plans@.len() && 0 <= b < plans@[a]@.len() ==> (#[trigger] plans@[a]@[b]).product_index
                        < s0.products@.len(),
                self.products == s0.products,
                self.transactions@.len() == s0.transactions@.len() + i,
                ids@.len() == i,
                forall|k: int| 0 <= k < i ==> #[trigger] ids@[k] == s0.transactions@.len() + k,
                bulk_posted(s0, *self, branch_id, reqs@.take(i as int), pvs.take(i as int), now),
            decreases reqs@.len() - i,
        {
            let ghost mid = *self;
            let note = match &reqs[i].note {
                Some(n) => Some(n.clone()),
                None => None,
            };
            let ghost note_copy = note;
            let tx = self.apply_plan(branch_id, reqs[i].created_by, note, &plans[i], now);
            ids.push(tx);
            proof {
                assert(note_copy == reqs@[i as int].note);
                assert(posted(mid, *self, branch_id, reqs@[i as int].created_by, reqs@[i as int].note, pvs[i as int], now));
                let rq = reqs@.take(i + 1);
                let pq = pvs.take(i + 1);
                assert(rq.drop_last() =~= reqs@.take(i as int));
                assert(pq.drop_last() =~= pvs.take(i as int));
                assert(rq.last() == reqs@[i as int]);
                assert(pq.last() == plan_view(plans@[i as int]@));
                assert(pq.last() == pvs[i as int]);
                assert(posted(mid, *self, branch_id, rq.last().created_by, rq.last().note, pq.last(), now));
                assert(bulk_posted(s0, mid, branch_id, rq.drop_last(), pq.drop_last(), now));
                assert(rq.len() > 0);
                assert(bulk_posted(s0, *self, branch_id, rq, pq, now));
            }
            i = i + 1;
        }
        proof {
            assert(reqs@.take(i as int) =~= reqs@);
            assert(pvs.take(i as int) =~= pvs);
        }
        Ok(ids)
    }
}

} // verus!
