use crate::bom::{
    bom_edges, bom_line_of, bom_lines, has_product, is_current_product, lemma_current_product_exists, product_matches,
    BomLine,
};
use crate::error::{CoreError, Entity};
use crate::ledger::{entry_of, latest_price};
use crate::posting::{
    actor_known, actors_known, bulk_plan, bulk_posted, item_plan, items_plan, ledger_rows, line_plan, line_rows, lines_plan,
    plans_of, posted, transaction_plan, SYSTEM_ACTOR, ItemPlan, PlannedLine, RequestCreateTransaction,
    RequestCreateTransactionItem,
};
use crate::records::{FlowType, SpecificationHistory, Store};
use vstd::prelude::*;

verus! {

/// Every row of `rows` carries the current unit price that ledger `snapshot` gives its specification.
pub open spec fn priced_from(snapshot: Seq<SpecificationHistory>, rows: Seq<SpecificationHistory>) -> bool {
    forall|k: int|
        0 <= k < rows.len() ==> latest_price(snapshot, (#[trigger] rows[k]).specification_id) == Some(
            rows[k].unit_price,
        )
}

/// Every movement of a costed sale line carries the current unit price that ledger `snapshot`
/// gives its specification.
pub open spec fn lines_priced_from(snapshot: Seq<SpecificationHistory>, lines: Seq<PlannedLine>) -> bool {
    forall|j: int|
        0 <= j < lines.len() ==> latest_price(snapshot, (#[trigger] lines[j]).specification_id) == Some(
            lines[j].unit_price,
        )
}

/// A costed recipe has one movement per entry, for the entry's specification, at the entry's
/// price, consuming `quantity_per_unit * qty`.
pub proof fn lemma_lines_plan_ok(bs: Seq<BomLine>, qty: i32, ls: Seq<PlannedLine>)
    requires
        lines_plan(bs, qty) == Ok::<Seq<PlannedLine>, CoreError>(ls),
    ensures
        ls.len() == bs.len(),
        forall|j: int|
            0 <= j < ls.len() ==> {
                &&& (#[trigger] ls[j]).specification_id == bs[j].specification_id
                &&& bs[j].latest_unit_price == Some(ls[j].unit_price)
                &&& ls[j].consumed == bs[j].quantity_per_unit * qty
                &&& ls[j].line_value == ls[j].consumed * ls[j].unit_price
            },
    decreases bs.len(),
{
    if bs.len() > 0 {
        let l = line_plan(bs[0], qty)->Ok_0;
        let rest = lines_plan(bs.drop_first(), qty)->Ok_0;
        assert((seq![l] + rest).drop_first() =~= rest);
        assert(ls.drop_first() == rest);
        assert(ls[0] == l);
        let a = bs[0].quantity_per_unit as int;
        let c = qty as int;
        assert(-0x4000_0000_0000_0000 <= a * c <= 0x4000_0000_0000_0000) by (nonlinear_arith)
            requires
                -0x8000_0000 <= a <= 0x7fff_ffff,
                -0x8000_0000 <= c <= 0x7fff_ffff,
        ;
        assert(l.consumed == a * c);
        assert(l.line_value == l.consumed * l.unit_price);
        lemma_lines_plan_ok(bs.drop_first(), qty, rest);
        assert forall|j: int| 0 < j < ls.len() implies (#[trigger] ls[j]).specification_id == bs[j].specification_id
            && bs[j].latest_unit_price == Some(ls[j].unit_price) && ls[j].consumed == bs[j].quantity_per_unit * qty
            && ls[j].line_value == ls[j].consumed * ls[j].unit_price by {
            assert(ls[j] == rest[j - 1]);
            assert(bs[j] == bs.drop_first()[j - 1]);
        }
    }
}

/// A costed sale has one entry per line, each the costing of that line on its own.
pub proof fn lemma_items_plan_ok(
    s: Store,
    branch_id: u128,
    items: Seq<RequestCreateTransactionItem>,
    pv: Seq<ItemPlan>,
)
    requires
        items_plan(s, branch_id, items) == Ok::<Seq<ItemPlan>, CoreError>(pv),
    ensures
        pv.len() == items.len(),
        forall|k: int|
            0 <= k < pv.len() ==> item_plan(s, branch_id, #[trigger] items[k]) == Ok::<ItemPlan, CoreError>(
                pv[k],
            ),
    decreases items.len(),
{
    if items.len() > 0 {
        let rest = items_plan(s, branch_id, items.drop_first())->Ok_0;
        assert((seq![pv[0]] + rest).drop_first() =~= rest);
        assert(pv.drop_first() == rest);
        lemma_items_plan_ok(s, branch_id, items.drop_first(), rest);
        assert forall|k: int| 0 < k < pv.len() implies item_plan(s, branch_id, #[trigger] items[k])
            == Ok::<ItemPlan, CoreError>(pv[k]) by {
            assert(items[k] == items.drop_first()[k - 1]);
        }
    }
}

/// A costed batch has one entry per sale, each the costing of that sale on its own.
pub proof fn lemma_plans_of_ok(
    s: Store,
    branch_id: u128,
    reqs: Seq<RequestCreateTransaction>,
    plans: Seq<Seq<ItemPlan>>,
)
    requires
        plans_of(s, branch_id, reqs) == Ok::<Seq<Seq<ItemPlan>>, CoreError>(plans),
    ensures
        plans.len() == reqs.len(),
        forall|t: int|
            0 <= t < plans.len() ==> items_plan(s, branch_id, (#[trigger] reqs[t]).items@) == Ok::<
                Seq<ItemPlan>,
                CoreError,
            >(plans[t]),
    decreases reqs.len(),
{
    if reqs.len() > 0 {
        let rest = plans_of(s, branch_id, reqs.drop_first())->Ok_0;
        assert((seq![plans[0]] + rest).drop_first() =~= rest);
        assert(plans.drop_first() == rest);
        lemma_plans_of_ok(s, branch_id, reqs.drop_first(), rest);
        assert forall|t: int| 0 < t < plans.len() implies items_plan(s, branch_id, (#[trigger] reqs[t]).items@)
            == Ok::<Seq<ItemPlan>, CoreError>(plans[t]) by {
            assert(reqs[t] == reqs.drop_first()[t - 1]);
        }
    }
}

/// The movements of a costed sale line carry the prices of ledger `s.ledger` as it stood.
proof fn lemma_item_priced(s: Store, branch_id: u128, item: RequestCreateTransactionItem, p: ItemPlan)
    requires
        item_plan(s, branch_id, item) == Ok::<ItemPlan, CoreError>(p),
    ensures
        lines_priced_from(s.ledger@, p.2),
{
    let i = choose|i: int| is_current_product(s.products@, branch_id, item.product_reference_id, i);
    let pid = s.products@[i].id;
    let bs = bom_lines(s, pid);
    lemma_lines_plan_ok(bs, item.product_quantity, p.2);
    assert forall|j: int| 0 <= j < p.2.len() implies latest_price(s.ledger@, (#[trigger] p.2[j]).specification_id)
        == Some(p.2[j].unit_price) by {
        let edges = bom_edges(s.product_specifications@, s.specifications@, pid);
        assert(bs[j] == bom_line_of(s, edges[j]));
    }
}

/// The ledger rows of a costed sale carry the prices of its movements.
proof fn lemma_ledger_rows_priced(snapshot: Seq<SpecificationHistory>, pv: Seq<ItemPlan>, base: int, now: i64)
    requires
        forall|a: int| 0 <= a < pv.len() ==> lines_priced_from(snapshot, (#[trigger] pv[a]).2),
    ensures
        priced_from(snapshot, ledger_rows(pv, base, now)),
    decreases pv.len(),
{
    if pv.len() > 0 {
        let front = pv.drop_last();
        assert forall|a: int| 0 <= a < front.len() implies lines_priced_from(snapshot, (#[trigger] front[a]).2) by {
            assert(front[a] == pv[a]);
        }
        lemma_ledger_rows_priced(snapshot, front, base, now);
        let head = ledger_rows(front, base, now);
        let tail = line_rows(pv.last().2, base + pv.len() - 1, now);
        assert(lines_priced_from(snapshot, pv[pv.len() - 1].2));
        let all = ledger_rows(pv, base, now);
        assert(all == head + tail);
        assert forall|k: int| 0 <= k < all.len() implies latest_price(snapshot, (#[trigger] all[k]).specification_id)
            == Some(all[k].unit_price) by {
            if k < head.len() {
                assert(all[k] == head[k]);
            } else {
                assert(all[k] == tail[k - head.len()]);
                assert(pv.last().2[k - head.len()].specification_id == tail[k - head.len()].specification_id);
            }
        }
    }
}

/// Every movement of a costed sale carries the prices of the store it was costed against.
proof fn lemma_plan_priced(s: Store, branch_id: u128, items: Seq<RequestCreateTransactionItem>, pv: Seq<ItemPlan>)
    requires
        items_plan(s, branch_id, items) == Ok::<Seq<ItemPlan>, CoreError>(pv),
    ensures
        forall|a: int| 0 <= a < pv.len() ==> lines_priced_from(s.ledger@, (#[trigger] pv[a]).2),
{
    lemma_items_plan_ok(s, branch_id, items, pv);
    assert forall|a: int| 0 <= a < pv.len() implies lines_priced_from(s.ledger@, (#[trigger] pv[a]).2) by {
        lemma_item_priced(s, branch_id, items[a], pv[a]);
    }
}

/// Pricing is a snapshot: every ledger row that a successful sale writes carries the unit
/// price that the ledger gave its specification when the unit of work began, and the rows
/// that were there before are kept as they were.
pub proof fn lemma_post_prices_from_snapshot(
    old: Store,
    new: Store,
    branch_id: u128,
    req: RequestCreateTransaction,
    plan: Seq<ItemPlan>,
    now: i64,
)
    requires
        transaction_plan(old, branch_id, req) == Ok::<Seq<ItemPlan>, CoreError>(plan),
        posted(old, new, branch_id, req.created_by, req.note, plan, now),
    ensures
        new.ledger@.take(old.ledger@.len() as int) == old.ledger@,
        priced_from(old.ledger@, new.ledger@.skip(old.ledger@.len() as int)),
{
    lemma_plan_priced(old, branch_id, req.items@, plan);
    let base = old.transaction_items@.len() as int;
    lemma_ledger_rows_priced(old.ledger@, plan, base, now);
    assert(new.ledger@.take(old.ledger@.len() as int) =~= old.ledger@);
    assert(new.ledger@.skip(old.ledger@.len() as int) =~= ledger_rows(plan, base, now));
}

/// The batch version of `lemma_post_prices_from_snapshot`, by induction over the sales.
proof fn lemma_bulk_priced(
    s0: Store,
    old: Store,
    new: Store,
    branch_id: u128,
    reqs: Seq<RequestCreateTransaction>,
    plans: Seq<Seq<ItemPlan>>,
    now: i64,
)
    requires
        plans.len() == reqs.len(),
        forall|t: int, a: int|
            0 <= t < plans.len() && 0 <= a < plans[t].len() ==> lines_priced_from(s0.ledger@, (#[trigger] plans[t][a]).2),
        bulk_posted(old, new, branch_id, reqs, plans, now),
    ensures
        old.ledger@.len() <= new.ledger@.len(),
        new.ledger@.take(old.ledger@.len() as int) == old.ledger@,
        priced_from(s0.ledger@, new.ledger@.skip(old.ledger@.len() as int)),
    decreases reqs.len(),
{
    if reqs.len() == 0 {
        assert(new.ledger@.take(old.ledger@.len() as int) =~= old.ledger@);
        assert(new.ledger@.skip(old.ledger@.len() as int) =~= Seq::<SpecificationHistory>::empty());
    } else {
        let mid = choose|mid: Store|
            bulk_posted(old, mid, branch_id, reqs.drop_last(), plans.drop_last(), now) && #[trigger] posted(
                mid,
                new,
                branch_id,
                reqs.last().created_by,
                reqs.last().note,
                plans.last(),
                now,
            );
        let front = plans.drop_last();
        assert forall|t: int, a: int| 0 <= t < front.len() && 0 <= a < front[t].len() implies lines_priced_from(
            s0.ledger@,
            (#[trigger] front[t][a]).2,
        ) by {
            assert(front[t] == plans[t]);
        }
        lemma_bulk_priced(s0, old, mid, branch_id, reqs.drop_last(), front, now);
        let last = plans.last();
        assert forall|a: int| 0 <= a < last.len() implies lines_priced_from(s0.ledger@, (#[trigger] last[a]).2) by {
            assert(last[a] == plans[plans.len() - 1][a]);
        }
        let base = mid.transaction_items@.len() as int;
        lemma_ledger_rows_priced(s0.ledger@, last, base, now);
        let added = ledger_rows(last, base, now);
        let old_new = mid.ledger@.skip(old.ledger@.len() as int);
        assert(new.ledger@ == mid.ledger@ + added);
        assert(new.ledger@.take(old.ledger@.len() as int) =~= mid.ledger@.take(old.ledger@.len() as int));
        let tail = new.ledger@.skip(old.ledger@.len() as int);
        assert(tail =~= old_new + added);
        assert forall|k: int| 0 <= k < tail.len() implies latest_price(s0.ledger@, (#[trigger] tail[k]).specification_id)
            == Some(tail[k].unit_price) by {
            if k < old_new.len() {
                assert(tail[k] == old_new[k]);
            } else {
                assert(tail[k] == added[k - old_new.len()]);
            }
        }
    }
}

/// Pricing is a snapshot across a batch: every ledger row that a successful batch writes
/// carries the unit price that the ledger gave its specification when the batch began, even
/// where an earlier sale of the same batch has already written rows for that specification;
/// the rows that were there before are kept as they were.
pub proof fn lemma_bulk_post_prices_from_snapshot(
    old: Store,
    new: Store,
    branch_id: u128,
    reqs: Seq<RequestCreateTransaction>,
    plans: Seq<Seq<ItemPlan>>,
    now: i64,
)
    requires
        bulk_plan(old, branch_id, reqs) == Ok::<Seq<Seq<ItemPlan>>, CoreError>(plans),
        bulk_posted(old, new, branch_id, reqs, plans, now),
    ensures
        new.ledger@.take(old.ledger@.len() as int) == old.ledger@,
        priced_from(old.ledger@, new.ledger@.skip(old.ledger@.len() as int)),
{
    lemma_plans_of_ok(old, branch_id, reqs, plans);
    assert forall|t: int, a: int| 0 <= t < plans.len() && 0 <= a < plans[t].len() implies lines_priced_from(
        old.ledger@,
        (#[trigger] plans[t][a]).2,
    ) by {
        lemma_plan_priced(old, branch_id, reqs[t].items@, plans[t]);
    }
    lemma_bulk_priced(old, old, new, branch_id, reqs, plans, now);
}

/// A sale with a line `k` that fails to cost fails; when the lines before `k` cost, it
/// fails with the error of line `k`.
proof fn lemma_items_plan_err(s: Store, branch_id: u128, items: Seq<RequestCreateTransactionItem>, k: int)
    requires
        0 <= k < items.len(),
        item_plan(s, branch_id, items[k]) is Err,
    ensures
        items_plan(s, branch_id, items) is Err,
        (forall|j: int| 0 <= j < k ==> (#[trigger] item_plan(s, branch_id, items[j])) is Ok) ==> items_plan(
            s,
            branch_id,
            items,
        ) == Err::<Seq<ItemPlan>, CoreError>(item_plan(s, branch_id, items[k])->Err_0),
    decreases k,
{
    if k > 0 && item_plan(s, branch_id, items[0]) is Ok {
        let tail = items.drop_first();
        assert(tail[k - 1] == items[k]);
        lemma_items_plan_err(s, branch_id, tail, k - 1);
        if forall|j: int| 0 <= j < k ==> (#[trigger] item_plan(s, branch_id, items[j])) is Ok {
            assert forall|j: int| 0 <= j < k - 1 implies (#[trigger] item_plan(s, branch_id, tail[j])) is Ok by {
                assert(tail[j] == items[j + 1]);
            }
        }
    }
}

/// A batch in which some sale fails to cost fails.
proof fn lemma_plans_of_err(s: Store, branch_id: u128, reqs: Seq<RequestCreateTransaction>, t: int)
    requires
        0 <= t < reqs.len(),
        items_plan(s, branch_id, reqs[t].items@) is Err,
    ensures
        plans_of(s, branch_id, reqs) is Err,
    decreases t,
{
    if t > 0 && items_plan(s, branch_id, reqs[0].items@) is Ok {
        let tail = reqs.drop_first();
        assert(tail[t - 1] == reqs[t]);
        lemma_plans_of_err(s, branch_id, tail, t - 1);
    }
}

/// A sale that names a product reference unknown to its branch is refused as a whole, so
/// `Store::process_create` writes nothing. When the branch and actor are known and the
/// lines before it cost, the refusal is `NotFound(Product)`.
pub proof fn lemma_unknown_product_aborts(s: Store, branch_id: u128, req: RequestCreateTransaction, k: int)
    requires
        0 <= k < req.items@.len(),
        !has_product(s.products@, branch_id, req.items@[k].product_reference_id),
    ensures
        transaction_plan(s, branch_id, req) is Err,
        s.branches@.contains(branch_id) && actor_known(s, req.created_by) && req.items@[k].product_quantity > 0
            && (forall|j: int| 0 <= j < k ==> (#[trigger] item_plan(s, branch_id, req.items@[j])) is Ok)
            ==> transaction_plan(s, branch_id, req) == Err::<Seq<ItemPlan>, CoreError>(
            CoreError::NotFound(Entity::Product),
        ),
{
    lemma_items_plan_err(s, branch_id, req.items@, k);
}

/// A batch in which any sale names a product reference unknown to the branch is refused as
/// a whole, so `Store::bulk_create` writes nothing.
pub proof fn lemma_unknown_product_aborts_batch(
    s: Store,
    branch_id: u128,
    reqs: Seq<RequestCreateTransaction>,
    t: int,
    k: int,
)
    requires
        0 <= t < reqs.len(),
        0 <= k < reqs[t].items@.len(),
        !has_product(s.products@, branch_id, reqs[t].items@[k].product_reference_id),
    ensures
        bulk_plan(s, branch_id, reqs) is Err,
{
    lemma_items_plan_err(s, branch_id, reqs[t].items@, k);
    lemma_plans_of_err(s, branch_id, reqs, t);
}

/// A batch is all or nothing: when any one of its sales would be refused on its own, the
/// whole batch is refused, so `Store::bulk_create` leaves every table as it was.
pub proof fn lemma_failing_sale_aborts_batch(s: Store, branch_id: u128, reqs: Seq<RequestCreateTransaction>, k: int)
    requires
        0 <= k < reqs.len(),
        transaction_plan(s, branch_id, reqs[k]) is Err,
    ensures
        bulk_plan(s, branch_id, reqs) is Err,
{
    if s.branches@.contains(branch_id) && actors_known(s, reqs) {
        assert(actor_known(s, reqs[k].created_by));
        lemma_plans_of_err(s, branch_id, reqs, k);
    }
}

/// The ledger rows of a costed sale whose lines have no movements are none.
proof fn lemma_no_movements_no_rows(pv: Seq<ItemPlan>, base: int, now: i64)
    requires
        forall|a: int| 0 <= a < pv.len() ==> (#[trigger] pv[a]).2.len() == 0,
    ensures
        ledger_rows(pv, base, now) == Seq::<SpecificationHistory>::empty(),
    decreases pv.len(),
{
    if pv.len() > 0 {
        let front = pv.drop_last();
        assert forall|a: int| 0 <= a < front.len() implies (#[trigger] front[a]).2.len() == 0 by {
            assert(front[a] == pv[a]);
        }
        lemma_no_movements_no_rows(front, base, now);
        assert(pv[pv.len() - 1].2.len() == 0);
        assert(line_rows(pv.last().2, base + pv.len() - 1, now) =~= Seq::<SpecificationHistory>::empty());
        assert(ledger_rows(pv, base, now) =~= Seq::<SpecificationHistory>::empty());
    }
}

/// A sale whose products have no recipe still writes its transaction and one item row per
/// line, and writes no ledger row at all.
pub proof fn lemma_empty_bom_posts_no_ledger_rows(
    old: Store,
    new: Store,
    branch_id: u128,
    req: RequestCreateTransaction,
    plan: Seq<ItemPlan>,
    now: i64,
)
    requires
        transaction_plan(old, branch_id, req) == Ok::<Seq<ItemPlan>, CoreError>(plan),
        posted(old, new, branch_id, req.created_by, req.note, plan, now),
        forall|k: int|
            0 <= k < plan.len() ==> bom_lines(old, old.products@[(#[trigger] plan[k]).0].id).len() == 0,
    ensures
        new.ledger@ == old.ledger@,
        new.transactions@.len() == old.transactions@.len() + 1,
        new.transaction_items@.len() == old.transaction_items@.len() + req.items@.len(),
{
    assert(items_plan(old, branch_id, req.items@) == Ok::<Seq<ItemPlan>, CoreError>(plan));
    lemma_items_plan_ok(old, branch_id, req.items@, plan);
    assert forall|a: int| 0 <= a < plan.len() implies (#[trigger] plan[a]).2.len() == 0 by {
        let item = req.items@[a];
        assert(item_plan(old, branch_id, item) == Ok::<ItemPlan, CoreError>(plan[a]));
        let w = choose|w: int| 0 <= w < old.products@.len() && product_matches(#[trigger] old.products@[w], branch_id, item.product_reference_id);
        lemma_current_product_exists(old.products@, branch_id, item.product_reference_id, w);
        let i = choose|i: int| is_current_product(old.products@, branch_id, item.product_reference_id, i);
        assert(plan[a].0 == i);
        lemma_lines_plan_ok(bom_lines(old, old.products@[i].id), item.product_quantity, plan[a].2);
    }
    lemma_no_movements_no_rows(plan, old.transaction_items@.len() as int, now);
    assert(new.ledger@ =~= old.ledger@);
}

/// How many movements a costed sale has in all.
pub open spec fn movement_count(plan: Seq<ItemPlan>) -> nat
    decreases plan.len(),
{
    if plan.len() == 0 {
        0
    } else {
        movement_count(plan.drop_last()) + plan.last().2.len()
    }
}

/// The ledger rows of a costed sale are its movements, line after line: movement `j` of line
/// `a` is row `movement_count(plan.take(a)) + j`.
proof fn lemma_ledger_rows_layout(plan: Seq<ItemPlan>, base: int, now: i64)
    ensures
        ledger_rows(plan, base, now).len() == movement_count(plan),
        forall|a: int, j: int|
            0 <= a < plan.len() && 0 <= j < plan[a].2.len() ==> #[trigger] ledger_rows(plan, base, now)[movement_count(
                plan.take(a),
            ) + j] == (#[trigger] line_rows(plan[a].2, base + a, now))[j],
    decreases plan.len(),
{
    if plan.len() > 0 {
        let front = plan.drop_last();
        lemma_ledger_rows_layout(front, base, now);
        let head = ledger_rows(front, base, now);
        let last = plan.len() - 1;
        let tail = line_rows(plan.last().2, base + last, now);
        assert(ledger_rows(plan, base, now) == head + tail);
        assert(plan.take(last) =~= front);
        assert forall|a: int, j: int|
            0 <= a < plan.len() && 0 <= j < plan[a].2.len() implies #[trigger] ledger_rows(plan, base, now)[movement_count(
                plan.take(a),
            ) + j] == (#[trigger] line_rows(plan[a].2, base + a, now))[j] by {
            if a < last {
                assert(front.take(a) =~= plan.take(a));
                assert(front[a] == plan[a]);
                lemma_movement_count_prefix(front, a);
                assert(movement_count(front.take(a)) + j < head.len());
            } else {
                assert(a == last);
            }
        }
    }
}

/// A prefix of a costed sale has no more movements than the whole, and one line fewer adds
/// that line's movements.
proof fn lemma_movement_count_prefix(plan: Seq<ItemPlan>, a: int)
    requires
        0 <= a < plan.len(),
    ensures
        movement_count(plan.take(a)) + plan[a].2.len() <= movement_count(plan),
    decreases plan.len(),
{
    let last = plan.len() - 1;
    if a == last {
        assert(plan.take(a) =~= plan.drop_last());
    } else {
        let front = plan.drop_last();
        assert(front.take(a) =~= plan.take(a));
        assert(front[a] == plan[a]);
        lemma_movement_count_prefix(front, a);
    }
}

/// Movement `j` of line `a` of a costed sale was written as its outbound ledger row: at its
/// place among the rows added to `old`, for the entry's specification, consuming
/// `quantity_per_unit * product_quantity`, linked to the line's item row, by `SYSTEM_ACTOR`,
/// at the movement's frozen unit price.
pub open spec fn fan_out_row(
    old: Store,
    new: Store,
    req: RequestCreateTransaction,
    plan: Seq<ItemPlan>,
    a: int,
    j: int,
) -> bool {
    let e = bom_lines(old, old.products@[plan[a].0].id)[j];
    let row = new.ledger@[old.ledger@.len() + movement_count(plan.take(a)) + j];
    &&& row.specification_id == e.specification_id
    &&& row.flow_type == FlowType::Out
    &&& row.quantity == e.quantity_per_unit * req.items@[a].product_quantity
    &&& row.transaction_item_id == Some((old.transaction_items@.len() + a) as usize)
    &&& row.created_by == SYSTEM_ACTOR
    &&& row.unit_price == plan[a].2[j].unit_price
}

/// Recipe fan-out: a successful sale resolves each line to the current product of its
/// reference and writes exactly one outbound ledger row per entry of that product's recipe,
/// in order, each consuming `quantity_per_unit * product_quantity` and linked to the line's
/// item row, and no other ledger row.
pub proof fn lemma_fan_out(
    old: Store,
    new: Store,
    branch_id: u128,
    req: RequestCreateTransaction,
    plan: Seq<ItemPlan>,
    now: i64,
)
    requires
        transaction_plan(old, branch_id, req) == Ok::<Seq<ItemPlan>, CoreError>(plan),
        posted(old, new, branch_id, req.created_by, req.note, plan, now),
    ensures
        plan.len() == req.items@.len(),
        new.transaction_items@.len() == old.transaction_items@.len() + plan.len(),
        new.ledger@.len() == old.ledger@.len() + movement_count(plan),
        forall|a: int|
            0 <= a < plan.len() ==> {
                &&& is_current_product(old.products@, branch_id, req.items@[a].product_reference_id, (#[trigger] plan[a]).0)
                &&& plan[a].2.len() == bom_lines(old, old.products@[plan[a].0].id).len()
            },
        forall|a: int, j: int|
            0 <= a < plan.len() && 0 <= j < plan[a].2.len() ==> #[trigger] fan_out_row(old, new, req, plan, a, j),
{
    assert(items_plan(old, branch_id, req.items@) == Ok::<Seq<ItemPlan>, CoreError>(plan));
    lemma_items_plan_ok(old, branch_id, req.items@, plan);
    let base = old.transaction_items@.len() as int;
    lemma_ledger_rows_layout(plan, base, now);
    assert forall|a: int| 0 <= a < plan.len() implies {
        &&& is_current_product(old.products@, branch_id, req.items@[a].product_reference_id, (#[trigger] plan[a]).0)
        &&& plan[a].2.len() == bom_lines(old, old.products@[plan[a].0].id).len()
        &&& forall|j: int| 0 <= j < plan[a].2.len() ==> {
            &&& (#[trigger] plan[a].2[j]).specification_id == bom_lines(old, old.products@[plan[a].0].id)[j].specification_id
            &&& plan[a].2[j].consumed == bom_lines(old, old.products@[plan[a].0].id)[j].quantity_per_unit * req.items@[a].product_quantity
        }
    } by {
        let item = req.items@[a];
        assert(item_plan(old, branch_id, item) == Ok::<ItemPlan, CoreError>(plan[a]));
        let w = choose|w: int| 0 <= w < old.products@.len() && product_matches(#[trigger] old.products@[w], branch_id, item.product_reference_id);
        lemma_current_product_exists(old.products@, branch_id, item.product_reference_id, w);
        lemma_lines_plan_ok(bom_lines(old, old.products@[plan[a].0].id), item.product_quantity, plan[a].2);
    }
    assert forall|a: int, j: int| 0 <= a < plan.len() && 0 <= j < plan[a].2.len() implies #[trigger] fan_out_row(old, new, req, plan, a, j) by {
        let added = ledger_rows(plan, base, now);
        let k = movement_count(plan.take(a)) + j;
        lemma_movement_count_prefix(plan, a);
        assert(added[k] == line_rows(plan[a].2, base + a, now)[j]);
        assert(new.ledger@[old.ledger@.len() + k] == added[k]);
        let l = plan[a].2[j];
        assert(line_rows(plan[a].2, base + a, now)[j] == entry_of(
            l.specification_id,
            FlowType::Out,
            l.consumed,
            l.line_value,
            l.unit_price,
            Some((base + a) as usize),
            SYSTEM_ACTOR,
            None,
            now,
        ));
        assert(l.specification_id == bom_lines(old, old.products@[plan[a].0].id)[j].specification_id);
        assert(l.consumed == bom_lines(old, old.products@[plan[a].0].id)[j].quantity_per_unit * req.items@[a].product_quantity);
    }
}

} // verus!
