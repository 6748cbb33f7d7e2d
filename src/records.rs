use vstd::prelude::*;

verus! {

/// Direction of an inventory movement.
#[derive(Clone, Copy, Debug, PartialEq, Eq, Structural)]
pub enum FlowType {
    In,
    Out,
}

/// A raw-material type of one branch. Prices are in hundredths of the currency unit.
#[derive(Clone, Debug)]
pub struct Specification {
    pub id: u128,
    pub branch_id: u128,
    pub name: String,
    pub smallest_unit: i32,
    pub unit_name: String,
    pub unit: String,
    pub lowest_price: i64,
    pub raw_price: i32,
    pub created_at: i64,
    pub deleted_at: Option<i64>,
}

/// One immutable inventory movement of a specification.
///
/// `price` is the total value of the movement and `unit_price` the price of one unit,
/// both in hundredths; `transaction_item_id` is the position of the sale line that caused it.
#[derive(Clone, Debug)]
pub struct SpecificationHistory {
    pub specification_id: u128,
    pub flow_type: FlowType,
    pub quantity: i64,
    pub price: i64,
    pub unit_price: i64,
    pub transaction_item_id: Option<usize>,
    pub created_by: u128,
    pub note: Option<String>,
    pub created_at: i64,
}

/// A product of one branch, correlated with an upstream catalog by `reference_id`.
#[derive(Clone, Debug)]
pub struct Product {
    pub id: u128,
    pub branch_id: u128,
    pub name: String,
    pub reference_id: u128,
    pub created_at: i64,
    pub deleted_at: Option<i64>,
}

/// A bill-of-materials edge: `quantity` units of the specification go into one unit of the product.
#[derive(Clone, Copy, Debug, PartialEq, Eq, Structural)]
pub struct ProductSpecification {
    pub product_id: u128,
    pub specification_id: u128,
    pub quantity: i32,
}

/// A sale event.
#[derive(Clone, Debug)]
pub struct Transaction {
    pub branch_id: u128,
    pub created_by: Option<u128>,
    pub note: Option<String>,
    pub created_at: i64,
}

/// One line of a sale, with the product's name and reference frozen at the time of sale.
/// `transaction_id` is the position of its transaction.
#[derive(Clone, Debug)]
pub struct TransactionItem {
    pub transaction_id: usize,
    pub product_id: u128,
    pub product_name: String,
    pub product_reference_id: u128,
    pub product_quantity: i32,
    pub created_at: i64,
}

/// The tables that a sale reads and writes. Rows created by the library are identified by
/// their position in their table.
#[derive(Clone, Debug)]
pub struct Store {
    pub branches: Vec<u128>,
    pub users: Vec<u128>,
    pub specifications: Vec<Specification>,
    pub products: Vec<Product>,
    pub product_specifications: Vec<ProductSpecification>,
    pub ledger: Vec<SpecificationHistory>,
    pub transactions: Vec<Transaction>,
    pub transaction_items: Vec<TransactionItem>,
}

impl Store {
    /// A store with no rows.
    pub fn new() -> (r: Store)
        ensures
            r.branches@.len() == 0,
            r.users@.len() == 0,
            r.specifications@.len() == 0,
            r.products@.len() == 0,
            r.product_specifications@.len() == 0,
            r.ledger@.len() == 0,
            r.transactions@.len() == 0,
            r.transaction_items@.len() == 0,
    {
        Store {
            branches: Vec::new(),
            users: Vec::new(),
            specifications: Vec::new(),
            products: Vec::new(),
            product_specifications: Vec::new(),
            ledger: Vec::new(),
            transactions: Vec::new(),
            transaction_items: Vec::new(),
        }
    }
}

} // verus!
