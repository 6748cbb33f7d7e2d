use pos_inventory::{
    CoreError, Entity, Field, FlowType, Product, ProductSpecification, RequestCreateTransaction,
    RequestCreateTransactionItem, Specification, SpecificationHistory, Store, SYSTEM_ACTOR,
};

const BRANCH: u128 = 1;
const USER: u128 = 2;
const BUN: u128 = 100;
const PATTY: u128 = 101;
const CHEESE: u128 = 102;
const BURGER: u128 = 200;
const WATER: u128 = 201;
const BURGER_REF: u128 = 300;
const WATER_REF: u128 = 301;

fn spec(id: u128, name: &str) -> Specification {
    Specification {
        id,
        branch_id: BRANCH,
        name: name.to_string(),
        smallest_unit: 1,
        unit_name: "gram".to_string(),
        unit: "g".to_string(),
        lowest_price: 0,
        raw_price: 0,
        created_at: 0,
        deleted_at: None,
    }
}

fn history(sid: u128, unit_price: i64, created_at: i64) -> SpecificationHistory {
    SpecificationHistory {
        specification_id: sid,
        flow_type: FlowType::In,
        quantity: 10,
        price: unit_price * 10,
        unit_price,
        transaction_item_id: None,
        created_by: USER,
        note: None,
        created_at,
    }
}

fn shop() -> Store {
    let mut s = Store::new();
    s.branches.push(BRANCH);
    s.users.push(USER);
    s.specifications.push(spec(BUN, "bun"));
    s.specifications.push(spec(PATTY, "patty"));
    s.specifications.push(spec(CHEESE, "cheese"));
    s.products.push(Product {
        id: BURGER,
        branch_id: BRANCH,
        name: "Burger".to_string(),
        reference_id: BURGER_REF,
        created_at: 0,
        deleted_at: None,
    });
    s.products.push(Product {
        id: WATER,
        branch_id: BRANCH,
        name: "Water".to_string(),
        reference_id: WATER_REF,
        created_at: 0,
        deleted_at: None,
    });
    s.product_specifications.push(ProductSpecification { product_id: BURGER, specification_id: BUN, quantity: 2 });
    s.product_specifications.push(ProductSpecification { product_id: BURGER, specification_id: PATTY, quantity: 1 });
    s.ledger.push(history(BUN, 150, 10));
    s.ledger.push(history(PATTY, 1234, 10));
    s.ledger.push(history(BUN, 175, 20));
    s
}

fn sale(items: Vec<(u128, i32)>) -> RequestCreateTransaction {
    RequestCreateTransaction {
        transaction_id: None,
        order_status: None,
        payment_status: None,
        items: items
            .into_iter()
            .map(|(r, q)| RequestCreateTransactionItem { product_reference_id: r, product_quantity: q })
            .collect(),
        created_by: Some(USER),
        note: Some("table 4".to_string()),
    }
}

fn sizes(s: &Store) -> (usize, usize, usize) {
    (s.transactions.len(), s.transaction_items.len(), s.ledger.len())
}

#[test]
fn latest_price_takes_newest_row() {
    let s = shop();
    assert_eq!(s.latest_unit_price(BUN), Some(175));
    assert_eq!(s.latest_unit_price(PATTY), Some(1234));
    assert_eq!(s.latest_unit_price(CHEESE), None);
}

#[test]
fn latest_price_ties_go_to_last_inserted() {
    let mut s = shop();
    s.ledger.push(history(CHEESE, 500, 30));
    s.ledger.push(history(CHEESE, 600, 30));
    s.ledger.push(history(CHEESE, 700, 5));
    assert_eq!(s.latest_unit_price(CHEESE), Some(600));
}

#[test]
fn post_entry_appends_and_validates() {
    let mut s = shop();
    assert_eq!(
        s.post_entry(CHEESE, FlowType::In, 0, 0, 10, None, USER, None, 40),
        Err(CoreError::ValidationFailed(Field::Quantity))
    );
    assert_eq!(
        s.post_entry(CHEESE, FlowType::In, 5, 0, -1, None, USER, None, 40),
        Err(CoreError::ValidationFailed(Field::UnitPrice))
    );
    assert_eq!(s.ledger.len(), 3);
    assert_eq!(s.post_entry(CHEESE, FlowType::In, 5, 500, 100, None, USER, Some("restock".to_string()), 40), Ok(3));
    assert_eq!(s.ledger.len(), 4);
    assert_eq!(s.ledger[3].unit_price, 100);
    assert_eq!(s.ledger[3].note, Some("restock".to_string()));
    assert_eq!(s.latest_unit_price(CHEESE), Some(100));
}

#[test]
fn resolve_gives_recipe_with_prices() {
    let s = shop();
    let r = s.resolve(BRANCH, BURGER_REF).unwrap();
    assert_eq!(r.product_id, BURGER);
    assert_eq!(r.name, "Burger");
    assert_eq!(r.lines.len(), 2);
    assert_eq!(r.lines[0].specification_id, BUN);
    assert_eq!(r.lines[0].name, "bun");
    assert_eq!(r.lines[0].unit, "g");
    assert_eq!(r.lines[1].name, "patty");
    assert_eq!(r.lines[0].quantity_per_unit, 2);
    assert_eq!(r.lines[0].latest_unit_price, Some(175));
    assert_eq!(r.lines[1].latest_unit_price, Some(1234));
}

#[test]
fn resolve_skips_deleted_specifications_and_products() {
    let mut s = shop();
    s.specifications[1].deleted_at = Some(50);
    let r = s.resolve(BRANCH, BURGER_REF).unwrap();
    assert_eq!(r.lines.len(), 1);
    assert_eq!(r.lines[0].specification_id, BUN);
    s.products[0].deleted_at = Some(50);
    assert_eq!(s.resolve(BRANCH, BURGER_REF).err(), Some(CoreError::NotFound(Entity::Product)));
}

#[test]
fn resolve_is_scoped_to_branch() {
    let s = shop();
    assert_eq!(s.resolve(99, BURGER_REF).err(), Some(CoreError::NotFound(Entity::Product)));
    assert_eq!(s.resolve(BRANCH, 999).err(), Some(CoreError::NotFound(Entity::Product)));
}

#[test]
fn bom_fan_out_two_rows() {
    let mut s = shop();
    let tx = s.process_create(BRANCH, &sale(vec![(BURGER_REF, 3)]), 100).unwrap();
    assert_eq!(tx, 0);
    assert_eq!(s.transaction_items.len(), 1);
    assert_eq!(s.transaction_items[0].product_name, "Burger");
    assert_eq!(s.transaction_items[0].product_quantity, 3);
    assert_eq!(s.ledger.len(), 5);
    let a = &s.ledger[3];
    let b = &s.ledger[4];
    assert_eq!((a.specification_id, a.quantity, a.unit_price, a.price), (BUN, 6, 175, 1050));
    assert_eq!((b.specification_id, b.quantity, b.unit_price, b.price), (PATTY, 3, 1234, 3702));
    for row in [a, b] {
        assert_eq!(row.flow_type, FlowType::Out);
        assert_eq!(row.transaction_item_id, Some(0));
        assert_eq!(row.created_by, SYSTEM_ACTOR);
        assert_eq!(row.created_at, 100);
    }
}

#[test]
fn empty_bom_posts_item_without_ledger_rows() {
    let mut s = shop();
    assert_eq!(s.process_create(BRANCH, &sale(vec![(WATER_REF, 2)]), 100), Ok(0));
    assert_eq!(sizes(&s), (1, 1, 3));
    assert_eq!(s.transaction_items[0].product_id, WATER);
    assert_eq!(s.transactions[0].note, Some("table 4".to_string()));
}

#[test]
fn unknown_product_aborts_single_post() {
    let mut s = shop();
    let r = s.process_create(BRANCH, &sale(vec![(BURGER_REF, 1), (999, 1)]), 100);
    assert_eq!(r, Err(CoreError::NotFound(Entity::Product)));
    assert_eq!(sizes(&s), (0, 0, 3));
}

#[test]
fn unknown_product_aborts_bulk_post() {
    let mut s = shop();
    let reqs = vec![sale(vec![(BURGER_REF, 1)]), sale(vec![(999, 1)]), sale(vec![(WATER_REF, 1)])];
    assert_eq!(s.bulk_create(BRANCH, &reqs, 100), Err(CoreError::NotFound(Entity::Product)));
    assert_eq!(sizes(&s), (0, 0, 3));
}

#[test]
fn bulk_failure_in_last_transaction_rolls_back_all() {
    let mut s = shop();
    s.product_specifications.push(ProductSpecification { product_id: WATER, specification_id: CHEESE, quantity: 1 });
    let reqs = vec![sale(vec![(BURGER_REF, 1)]), sale(vec![(BURGER_REF, 2)]), sale(vec![(WATER_REF, 1)])];
    assert_eq!(s.bulk_create(BRANCH, &reqs, 100), Err(CoreError::NotFound(Entity::Price)));
    assert_eq!(sizes(&s), (0, 0, 3));
}

#[test]
fn bulk_post_writes_all_in_order() {
    let mut s = shop();
    let reqs = vec![sale(vec![(BURGER_REF, 1)]), sale(vec![(WATER_REF, 4), (BURGER_REF, 2)])];
    assert_eq!(s.bulk_create(BRANCH, &reqs, 100), Ok(vec![0, 1]));
    assert_eq!(sizes(&s), (2, 3, 3 + 2 + 2));
    assert_eq!(s.transaction_items[0].transaction_id, 0);
    assert_eq!(s.transaction_items[1].transaction_id, 1);
    assert_eq!(s.transaction_items[2].transaction_id, 1);
    assert_eq!(s.ledger[5].transaction_item_id, Some(2));
    assert_eq!(s.ledger[5].quantity, 4);
}

#[test]
fn bulk_prices_come_from_the_snapshot() {
    let mut s = shop();
    let reqs = vec![sale(vec![(BURGER_REF, 1)]), sale(vec![(BURGER_REF, 1)])];
    let before_a = s.latest_unit_price(BUN).unwrap();
    let before_b = s.latest_unit_price(PATTY).unwrap();
    s.bulk_create(BRANCH, &reqs, 5).unwrap();
    for row in &s.ledger[3..] {
        let expected = if row.specification_id == BUN { before_a } else { before_b };
        assert_eq!(row.unit_price, expected);
    }
    assert_eq!(s.ledger.len(), 7);
}

#[test]
fn bulk_post_checks_every_actor_first() {
    let mut s = shop();
    let mut stranger = sale(vec![(BURGER_REF, 1)]);
    stranger.created_by = Some(77);
    let reqs = vec![sale(vec![(999, 1)]), stranger];
    assert_eq!(s.bulk_create(BRANCH, &reqs, 100), Err(CoreError::NotFound(Entity::Actor)));
    assert_eq!(sizes(&s), (0, 0, 3));
}

#[test]
fn empty_bulk_post_writes_nothing() {
    let mut s = shop();
    assert_eq!(s.bulk_create(BRANCH, &vec![], 100), Ok(vec![]));
    assert_eq!(sizes(&s), (0, 0, 3));
}

#[test]
fn post_errors_by_kind() {
    let mut s = shop();
    assert_eq!(
        s.process_create(99, &sale(vec![(BURGER_REF, 1)]), 1),
        Err(CoreError::NotFound(Entity::Branch))
    );
    let mut stranger = sale(vec![(BURGER_REF, 1)]);
    stranger.created_by = Some(77);
    assert_eq!(s.process_create(BRANCH, &stranger, 1), Err(CoreError::NotFound(Entity::Actor)));
    assert_eq!(
        s.process_create(BRANCH, &sale(vec![(BURGER_REF, 0)]), 1),
        Err(CoreError::ValidationFailed(Field::Quantity))
    );
    s.product_specifications.push(ProductSpecification { product_id: WATER, specification_id: CHEESE, quantity: 1 });
    assert_eq!(
        s.process_create(BRANCH, &sale(vec![(WATER_REF, 1)]), 1),
        Err(CoreError::NotFound(Entity::Price))
    );
    s.ledger.push(history(CHEESE, i64::MAX, 30));
    assert_eq!(s.process_create(BRANCH, &sale(vec![(WATER_REF, 2)]), 1), Err(CoreError::ArithmeticFailure));
    assert_eq!(sizes(&s), (0, 0, 4));
}

#[test]
fn anonymous_sale_is_accepted() {
    let mut s = shop();
    let mut req = sale(vec![(WATER_REF, 1)]);
    req.created_by = None;
    req.note = None;
    assert_eq!(s.process_create(BRANCH, &req, 1), Ok(0));
    assert_eq!(s.transactions[0].created_by, None);
}

#[test]
fn cost_of_product_sums_priced_entries() {
    let mut s = shop();
    // 2 * 1.75 + 1 * 12.34 = 15.84
    assert_eq!(s.cost_of_product(BURGER), Ok(Some(1584)));
    assert_eq!(s.cost_of_product(WATER), Ok(None));
    s.product_specifications.push(ProductSpecification { product_id: BURGER, specification_id: CHEESE, quantity: 4 });
    assert_eq!(s.cost_of_product(BURGER), Ok(Some(1584)));
    s.ledger.push(history(CHEESE, 50, 1));
    assert_eq!(s.cost_of_product(BURGER), Ok(Some(1784)));
}

#[test]
fn cost_of_product_overflow() {
    let mut s = shop();
    s.ledger.push(history(BUN, i64::MAX, 40));
    assert_eq!(s.cost_of_product(BURGER), Err(CoreError::ArithmeticFailure));
}
