use crate::error::{CoreError, Entity, Field};
use crate::ledger::entry_of;
use crate::posting::contains_id;
use crate::pricing::{lowest_price, rounded_quotient, scaled_quotient};
use crate::records::{FlowType, Product, ProductSpecification, Specification, Store};
use crate::text::{contains_seq, contains_text, lower_of, lowercase, text_equals};
use vstd::prelude::*;
use vstd::string::StrSliceExecFns;

verus! {

/// The largest workbook, in bytes, that an import accepts.
pub const MAX_IMPORT_BYTES: u64 = 2097152;

/// Whether a workbook of `len` bytes may be imported.
pub fn import_size_allowed(len: u64) -> (r: bool)
    ensures
        r == (len <= MAX_IMPORT_BYTES),
{
    len <= MAX_IMPORT_BYTES
}

/// The product name that a row of a recipe sheet applies to: the row's own name when it
/// has one, else the name in force from the rows above.
pub fn active_product_name(current: String, row_name: String) -> (r: String)
    ensures
        r@ == if row_name@.len() == 0 {
            current@
        } else {
            row_name@
        },
{
    if row_name.as_str().unicode_len() == 0 {
        current
    } else {
        row_name
    }
}

/// The flow type that a text names: exactly `IN` or `OUT`.
pub open spec fn flow_of(t: Seq<char>) -> Option<FlowType> {
    if t == "IN"@ {
        Some(FlowType::In)
    } else if t == "OUT"@ {
        Some(FlowType::Out)
    } else {
        None
    }
}

/// Reads a flow type; any text but `IN` or `OUT` fails validation.
pub fn validate_flow_specification_history(transaction_type: &str) -> (r: Result<FlowType, CoreError>)
    ensures
        match flow_of(transaction_type@) {
            Some(f) => r == Ok::<FlowType, CoreError>(f),
            None => r == Err::<FlowType, CoreError>(CoreError::ValidationFailed(Field::FlowType)),
        },
{
    if text_equals(transaction_type, "IN") {
        Ok(FlowType::In)
    } else if text_equals(transaction_type, "OUT") {
        Ok(FlowType::Out)
    } else {
        Err(CoreError::ValidationFailed(Field::FlowType))
    }
}

/// The smallest price, in hundredths, that a manually recorded movement may have.
pub const MIN_MOVEMENT_PRICE: i32 = 1000;

/// A specification with identity `sid` exists.
pub open spec fn spec_exists(specs: Seq<Specification>, sid: u128) -> bool {
    exists|k: int| 0 <= k < specs.len() && (#[trigger] specs[k]).id == sid
}

/// What recording a movement by hand decides, in order: the branch, the specification and
/// the actor must exist, the flow type must read, the quantity must be positive and the
/// price at least `MIN_MOVEMENT_PRICE`.
pub open spec fn movement_check(
    s: Store,
    branch_id: u128,
    specification_id: u128,
    created_by: u128,
    flow_type: Seq<char>,
    quantity: i32,
    price: i32,
) -> Option<CoreError> {
    if !s.branches@.contains(branch_id) {
        Some(CoreError::NotFound(Entity::Branch))
    } else if !spec_exists(s.specifications@, specification_id) {
        Some(CoreError::NotFound(Entity::Specification))
    } else if !s.users@.contains(created_by) {
        Some(CoreError::NotFound(Entity::Actor))
    } else if flow_of(flow_type) is None {
        Some(CoreError::ValidationFailed(Field::FlowType))
    } else if quantity < 1 {
        Some(CoreError::ValidationFailed(Field::Quantity))
    } else if price < MIN_MOVEMENT_PRICE {
        Some(CoreError::ValidationFailed(Field::Price))
    } else {
        None
    }
}

/// Position of the first specification of the branch with the given name, if any.
pub open spec fn is_first_named(specs: Seq<Specification>, branch_id: u128, name: Seq<char>, i: int) -> bool {
    &&& 0 <= i < specs.len()
    &&& specs[i].branch_id == branch_id
    &&& specs[i].name@ == name
    &&& forall|j: int| 0 <= j < i ==> !((#[trigger] specs[j]).branch_id == branch_id && specs[j].name@ == name)
}

/// Some specification of the branch has the given name.
pub open spec fn has_named(specs: Seq<Specification>, branch_id: u128, name: Seq<char>) -> bool {
    exists|j: int| 0 <= j < specs.len() && (#[trigger] specs[j]).branch_id == branch_id && specs[j].name@ == name
}

/// Position of the first edge from product `pid` to specification `sid`.
pub open spec fn is_first_edge(edges: Seq<ProductSpecification>, pid: u128, sid: u128, i: int) -> bool {
    &&& 0 <= i < edges.len()
    &&& edges[i].product_id == pid
    &&& edges[i].specification_id == sid
    &&& forall|j: int| 0 <= j < i ==> !((#[trigger] edges[j]).product_id == pid && edges[j].specification_id == sid)
}

/// Some edge leads from product `pid` to specification `sid`.
pub open spec fn has_edge(edges: Seq<ProductSpecification>, pid: u128, sid: u128) -> bool {
    exists|j: int| 0 <= j < edges.len() && (#[trigger] edges[j]).product_id == pid && edges[j].specification_id == sid
}

/// `new` differs from `old` at most in its bill-of-materials edges.
pub open spec fn only_edges_changed(old: Store, new: Store) -> bool {
    &&& new.branches == old.branches
    &&& new.users == old.users
    &&& new.specifications == old.specifications
    &&& new.products == old.products
    &&& new.ledger == old.ledger
    &&& new.transactions == old.transactions
    &&& new.transaction_items == old.transaction_items
}

/// `new` differs from `old` at most in its specifications.
pub open spec fn only_specifications_changed(old: Store, new: Store) -> bool {
    &&& new.branches == old.branches
    &&& new.users == old.users
    &&& new.products == old.products
    &&& new.product_specifications == old.product_specifications
    &&& new.ledger == old.ledger
    &&& new.transactions == old.transactions
    &&& new.transaction_items == old.transaction_items
}

impl Store {
    /// Whether a specification with identity `specification_id` exists.
    pub fn has_specification(&self, specification_id: u128) -> (r: bool)
        ensures
            r == spec_exists(self.specifications@, specification_id),
    {
        let mut i: usize = 0;
        while i < self.specifications.len()
            invariant
                i <= self.specifications@.len(),
                forall|k: int| 0 <= k < i ==> (#[trigger] self.specifications@[k]).id != specification_id,
            decreases self.specifications@.len() - i,
        {
            if self.specifications[i].id == specification_id {
                assert(self.specifications@[i as int].id == specification_id);
                return true;
            }
            i = i + 1;
        }
        false
    }

    /// Records an inventory movement by hand. The unit price is frozen at `price / quantity`,
    /// rounded half to even to a whole hundredth. Nothing is written on failure.
    pub fn record_movement(
        &mut self,
        branch_id: u128,
        specification_id: u128,
        created_by: u128,
        transaction_item_id: Option<usize>,
        flow_type: &str,
        note: String,
        quantity: i32,
        price: i32,
        now: i64,
    ) -> (r: Result<usize, CoreError>)
        ensures
            r is Err ==> *final(self) == *old(self),
            match movement_check(*old(self), branch_id, specification_id, created_by, flow_type@, quantity, price) {
                Some(e) => r == Err::<usize, CoreError>(e),
                None => match r {
                    Err(_) => false,
                    Ok(i) => {
                        &&& i == old(self).ledger@.len() as usize
                        &&& final(self).ledger@ == old(self).ledger@.push(
                            entry_of(
                                specification_id,
                                flow_of(flow_type@)->Some_0,
                                quantity as i64,
                                price as i64,
                                scaled_quotient(price as int, quantity as int, 0) as i64,
                                transaction_item_id,
                                created_by,
                                Some(note),
                                now,
                            ),
                        )
                        &&& final(self).branches == old(self).branches
                        &&& final(self).users == old(self).users
                        &&& final(self).specifications == old(self).specifications
                        &&& final(self).products == old(self).products
                        &&& final(self).product_specifications == old(self).product_specifications
                        &&& final(self).transactions == old(self).transactions
                        &&& final(self).transaction_items == old(self).transaction_items
                    },
                },
            },
    {
        if !contains_id(&self.branches, branch_id) {
            return Err(CoreError::NotFound(Entity::Branch));
        }
        if !self.has_specification(specification_id) {
            return Err(CoreError::NotFound(Entity::Specification));
        }
        if !contains_id(&self.users, created_by) {
            return Err(CoreError::NotFound(Entity::Actor));
        }
        let flow = match validate_flow_specification_history(flow_type) {
            Err(e) => {
                return Err(e);
            },
            Ok(f) => f,
        };
        if quantity < 1 {
            return Err(CoreError::ValidationFailed(Field::Quantity));
        }
        if price < MIN_MOVEMENT_PRICE {
            return Err(CoreError::ValidationFailed(Field::Price));
        }
        let unit_price = rounded_quotient(price, quantity);
        assert(unit_price >= 0);
        self.post_entry(
            specification_id,
            flow,
            quantity as i64,
            price as i64,
            unit_price,
            transaction_item_id,
            created_by,
            Some(note),
            now,
        )
    }
}

/// The specification row that an import writes, keeping identity and timestamps of `base`.
pub open spec fn imported_row(
    base: Specification,
    name: String,
    unit: String,
    smallest_unit: i32,
    unit_name: String,
    lowest_price: i64,
    raw_price: i32,
) -> Specification {
    Specification {
        id: base.id,
        branch_id: base.branch_id,
        name,
        smallest_unit,
        unit_name,
        unit,
        lowest_price,
        raw_price,
        created_at: base.created_at,
        deleted_at: base.deleted_at,
    }
}

impl Store {
    /// Position of the first specification of the branch named `name`, if any.
    pub fn find_specification_by_name(&self, branch_id: u128, name: &str) -> (r: Option<usize>)
        ensures
            r is None <==> !has_named(self.specifications@, branch_id, name@),
            r matches Some(i) ==> is_first_named(self.specifications@, branch_id, name@, i as int),
    {
        let mut i: usize = 0;
        while i < self.specifications.len()
            invariant
                i <= self.specifications@.len(),
                forall|j: int|
                    0 <= j < i ==> !((#[trigger] self.specifications@[j]).branch_id == branch_id
                        && self.specifications@[j].name@ == name@),
            decreases self.specifications@.len() - i,
        {
            if self.specifications[i].branch_id == branch_id && text_equals(self.specifications[i].name.as_str(), name) {
                assert(self.specifications@[i as int].branch_id == branch_id);
                return Some(i);
            }
            i = i + 1;
        }
        None
    }

    /// Writes one imported specification whose name and unit name are already lower-case:
    /// the first specification of the branch with that name is updated in place, or else a
    /// new one is added with identity `new_id`. Its lowest price is derived from `raw_price`
    /// and `smallest_unit` as `lowest_price` does; when that fails nothing is written.
    pub fn upsert_specification_named(
        &mut self,
        branch_id: u128,
        new_id: u128,
        name: String,
        unit: String,
        smallest_unit: i32,
        unit_name: String,
        raw_price: i32,
        now: i64,
    ) -> (r: Result<usize, CoreError>)
        ensures
            r is Err ==> *final(self) == *old(self),
            smallest_unit <= 0 ==> r == Err::<usize, CoreError>(CoreError::ValidationFailed(Field::SmallestUnit)),
            smallest_unit > 0 ==> r is Ok,
            r matches Ok(i) ==> {
                let price = scaled_quotient(raw_price as int, smallest_unit as int, 0) as i64;
                &&& only_specifications_changed(*old(self), *final(self))
                &&& if has_named(old(self).specifications@, branch_id, name@) {
                    &&& is_first_named(old(self).specifications@, branch_id, name@, i as int)
                    &&& final(self).specifications@ == old(self).specifications@.update(
                        i as int,
                        imported_row(
                            old(self).specifications@[i as int],
                            name,
                            unit,
                            smallest_unit,
                            unit_name,
                            price,
                            raw_price,
                        ),
                    )
                } else {
                    &&& i == old(self).specifications@.len()
                    &&& final(self).specifications@ == old(self).specifications@.push(
                        Specification {
                            id: new_id,
                            branch_id,
                            name,
                            smallest_unit,
                            unit_name,
                            unit,
                            lowest_price: price,
                            raw_price,
                            created_at: now,
                            deleted_at: None,
                        },
                    )
                }
            },
    {
        let price = match lowest_price(raw_price, smallest_unit) {
            Err(e) => {
                return Err(e);
            },
            Ok(p) => p,
        };
        match self.find_specification_by_name(branch_id, name.as_str()) {
            Some(i) => {
                let row = Specification {
                    id: self.specifications[i].id,
                    branch_id: self.specifications[i].branch_id,
                    name,
                    smallest_unit,
                    unit_name,
                    unit,
                    lowest_price: price,
                    raw_price,
                    created_at: self.specifications[i].created_at,
                    deleted_at: self.specifications[i].deleted_at,
                };
                self.specifications[i] = row;
                Ok(i)
            },
            None => {
                let i = self.specifications.len();
                self.specifications.push(
                    Specification {
                        id: new_id,
                        branch_id,
                        name,
                        smallest_unit,
                        unit_name,
                        unit,
                        lowest_price: price,
                        raw_price,
                        created_at: now,
                        deleted_at: None,
                    },
                );
                Ok(i)
            },
        }
    }

    /// Writes one imported specification row: its name and unit name are lower-cased, then
    /// it is written as `upsert_specification_named` writes it.
    pub fn upsert_specification(
        &mut self,
        branch_id: u128,
        new_id: u128,
        name: &str,
        unit: String,
        smallest_unit: i32,
        unit_name: &str,
        raw_price: i32,
        now: i64,
    ) -> (r: Result<usize, CoreError>)
        ensures
            r is Err ==> *final(self) == *old(self),
            smallest_unit <= 0 ==> r == Err::<usize, CoreError>(CoreError::ValidationFailed(Field::SmallestUnit)),
            smallest_unit > 0 ==> r is Ok,
            r matches Ok(i) ==> {
                &&& only_specifications_changed(*old(self), *final(self))
                &&& i < final(self).specifications@.len()
                &&& final(self).specifications@[i as int].branch_id == branch_id
                &&& final(self).specifications@[i as int].name@ == lower_of(name@)
                &&& final(self).specifications@[i as int].unit_name@ == lower_of(unit_name@)
                &&& final(self).specifications@[i as int].unit == unit
                &&& final(self).specifications@[i as int].smallest_unit == smallest_unit
                &&& final(self).specifications@[i as int].raw_price == raw_price
                &&& final(self).specifications@[i as int].lowest_price == scaled_quotient(raw_price as int, smallest_unit as int, 0) as i64
                &&& if has_named(old(self).specifications@, branch_id, lower_of(name@)) {
                    &&& is_first_named(old(self).specifications@, branch_id, lower_of(name@), i as int)
                    &&& final(self).specifications@.len() == old(self).specifications@.len()
                    &&& final(self).specifications@[i as int].id == old(self).specifications@[i as int].id
                    &&& forall|j: int|
                        0 <= j < old(self).specifications@.len() && j != i ==> final(self).specifications@[j]
                            == old(self).specifications@[j]
                } else {
                    &&& final(self).specifications@.drop_last() == old(self).specifications@
                    &&& i == old(self).specifications@.len()
                    &&& final(self).specifications@[i as int].id == new_id
                }
            },
    {
        let lname = lowercase(name);
        let lunit_name = lowercase(unit_name);
        let r = self.upsert_specification_named(branch_id, new_id, lname, unit, smallest_unit, lunit_name, raw_price, now);
        proof {
            if let Ok(i) = r {
                if !has_named(old(self).specifications@, branch_id, lower_of(name@)) {
                    assert(self.specifications@.drop_last() =~= old(self).specifications@);
                }
            }
        }
        r
    }

    /// Position of the first edge from product `product_id` to specification `specification_id`.
    pub fn find_edge(&self, product_id: u128, specification_id: u128) -> (r: Option<usize>)
        ensures
            r is None <==> !has_edge(self.product_specifications@, product_id, specification_id),
            r matches Some(i) ==> is_first_edge(self.product_specifications@, product_id, specification_id, i as int),
    {
        let mut i: usize = 0;
        while i < self.product_specifications.len()
            invariant
                i <= self.product_specifications@.len(),
                forall|j: int|
                    0 <= j < i ==> !((#[trigger] self.product_specifications@[j]).product_id == product_id
                        && self.product_specifications@[j].specification_id == specification_id),
            decreases self.product_specifications@.len() - i,
        {
            let e = self.product_specifications[i];
            if e.product_id == product_id && e.specification_id == specification_id {
                return Some(i);
            }
            i = i + 1;
        }
        None
    }

    /// Sets how much of a specification one unit of a product consumes: the first edge
    /// between the two takes the new quantity, or else a new edge is added.
    pub fn upsert_edge(&mut self, product_id: u128, specification_id: u128, quantity: i32) -> (r: usize)
        ensures
            only_edges_changed(*old(self), *final(self)),
            if has_edge(old(self).product_specifications@, product_id, specification_id) {
                &&& is_first_edge(old(self).product_specifications@, product_id, specification_id, r as int)
                &&& final(self).product_specifications@ == old(self).product_specifications@.update(
                    r as int,
                    ProductSpecification { product_id, specification_id, quantity },
                )
            } else {
                &&& r == old(self).product_specifications@.len()
                &&& final(self).product_specifications@ == old(self).product_specifications@.push(
                    ProductSpecification { product_id, specification_id, quantity },
                )
            },
    {
        let edge = ProductSpecification { product_id, specification_id, quantity };
        match self.find_edge(product_id, specification_id) {
            Some(i) => {
                self.product_specifications[i] = edge;
                i
            },
            None => {
                let i = self.product_specifications.len();
                self.product_specifications.push(edge);
                i
            },
        }
    }

    /// Whether a product with identity `product_id` exists.
    pub fn has_product_id(&self, product_id: u128) -> (r: bool)
        ensures
            r == exists|k: int| 0 <= k < self.products@.len() && (#[trigger] self.products@[k]).id == product_id,
    {
        let mut i: usize = 0;
        while i < self.products.len()
            invariant
                i <= self.products@.len(),
                forall|k: int| 0 <= k < i ==> (#[trigger] self.products@[k]).id != product_id,
            decreases self.products@.len() - i,
        {
            if self.products[i].id == product_id {
                assert(self.products@[i as int].id == product_id);
                return true;
            }
            i = i + 1;
        }
        false
    }

    /// Sets a recipe entry on request: the quantity must be positive and both the product and
    /// the specification must exist; then the edge is written as `upsert_edge` writes it.
    pub fn set_product_specification(&mut self, product_id: u128, specification_id: u128, quantity: i32) -> (r:
        Result<usize, CoreError>)
        ensures
            quantity < 1 ==> r == Err::<usize, CoreError>(CoreError::ValidationFailed(Field::Quantity)),
            quantity >= 1 && !(exists|k: int|
                0 <= k < old(self).products@.len() && (#[trigger] old(self).products@[k]).id == product_id)
                ==> r == Err::<usize, CoreError>(CoreError::NotFound(Entity::Product)),
            quantity >= 1 && (exists|k: int|
                0 <= k < old(self).products@.len() && (#[trigger] old(self).products@[k]).id == product_id)
                && !spec_exists(old(self).specifications@, specification_id) ==> r == Err::<usize, CoreError>(
                CoreError::NotFound(Entity::Specification),
            ),
            r is Err ==> *final(self) == *old(self),
            quantity >= 1 && (exists|k: int|
                0 <= k < old(self).products@.len() && (#[trigger] old(self).products@[k]).id == product_id)
                && spec_exists(old(self).specifications@, specification_id) ==> r is Ok,
            r matches Ok(i) ==> {
                &&& only_edges_changed(*old(self), *final(self))
                &&& if has_edge(old(self).product_specifications@, product_id, specification_id) {
                    &&& is_first_edge(old(self).product_specifications@, product_id, specification_id, i as int)
                    &&& final(self).product_specifications@ == old(self).product_specifications@.update(
                        i as int,
                        ProductSpecification { product_id, specification_id, quantity },
                    )
                } else {
                    &&& i == old(self).product_specifications@.len()
                    &&& final(self).product_specifications@ == old(self).product_specifications@.push(
                        ProductSpecification { product_id, specification_id, quantity },
                    )
                }
            },
    {
        if quantity < 1 {
            return Err(CoreError::ValidationFailed(Field::Quantity));
        }
        if !self.has_product_id(product_id) {
            return Err(CoreError::NotFound(Entity::Product));
        }
        if !self.has_specification(specification_id) {
            return Err(CoreError::NotFound(Entity::Specification));
        }
        Ok(self.upsert_edge(product_id, specification_id, quantity))
    }
}

/// Product `p` is a live product of the branch whose lower-case name contains `lname`.
pub open spec fn named_like(p: Product, branch_id: u128, lname: Seq<char>) -> bool {
    p.branch_id == branch_id && (p.deleted_at is None) && contains_seq(lower_of(p.name@), lname)
}

/// Edge `e` was made by linking: it leads to `sid` with quantity `measure` from a product
/// named like `lname`.
pub open spec fn linked_edge(
    products: Seq<Product>,
    branch_id: u128,
    lname: Seq<char>,
    sid: u128,
    measure: i32,
    e: ProductSpecification,
) -> bool {
    &&& e.specification_id == sid
    &&& e.quantity == measure
    &&& exists|k: int|
        0 <= k < products.len() && named_like(#[trigger] products[k], branch_id, lname) && products[k].id
            == e.product_id
}

/// Some product before position `upto` is named like `lname` and has identity `pid`.
pub open spec fn named_product_id(products: Seq<Product>, upto: int, branch_id: u128, lname: Seq<char>, pid: u128) -> bool {
    exists|k: int| 0 <= k < upto && named_like(#[trigger] products[k], branch_id, lname) && products[k].id == pid
}

/// How many of the first `upto` products are named like `lname`.
pub open spec fn named_count(products: Seq<Product>, upto: int, branch_id: u128, lname: Seq<char>) -> nat
    decreases upto,
{
    if upto <= 0 {
        0
    } else {
        named_count(products, upto - 1, branch_id, lname) + if named_like(products[upto - 1], branch_id, lname) {
            1nat
        } else {
            0nat
        }
    }
}

/// `new` is `old` after linking the products named like `lname` to `sid` with `measure`:
/// - each such product has an edge to `sid` of that quantity;
/// - edges that were there keep their endpoints, and only those into `sid` may take the new
///   quantity; the first edge of a linked product into `sid` does take it, in place;
/// - edges are added only for linked products that had no edge into `sid`, one per product.
pub open spec fn linked(
    old: Seq<ProductSpecification>,
    new: Seq<ProductSpecification>,
    products: Seq<Product>,
    upto: int,
    branch_id: u128,
    lname: Seq<char>,
    sid: u128,
    measure: i32,
) -> bool {
    &&& old.len() <= new.len()
    &&& forall|k: int|
        0 <= k < upto && named_like(#[trigger] products[k], branch_id, lname) ==> new.contains(
            ProductSpecification { product_id: products[k].id, specification_id: sid, quantity: measure },
        )
    &&& forall|j: int|
        0 <= j < old.len() ==> {
            &&& (#[trigger] new[j]).product_id == old[j].product_id
            &&& new[j].specification_id == old[j].specification_id
            &&& (new[j].quantity == old[j].quantity || (old[j].specification_id == sid && new[j].quantity
                == measure))
        }
    &&& forall|j: int|
        0 <= j < old.len() && is_first_edge(old, old[j].product_id, sid, j) && named_product_id(
            products,
            upto,
            branch_id,
            lname,
            old[j].product_id,
        ) ==> (#[trigger] new[j]).quantity == measure
    &&& forall|j: int|
        old.len() <= j < new.len() ==> linked_edge(products, branch_id, lname, sid, measure, #[trigger] new[j])
            && !has_edge(old, new[j].product_id, sid)
    &&& forall|a: int, b: int|
        old.len() <= a < b < new.len() ==> (#[trigger] new[a]).product_id != (#[trigger] new[b]).product_id
}

impl Store {
    /// Links every live product of the branch whose lower-case name contains the lower-case
    /// `product_name` to the specification of the branch named `specification_name` (lower-cased),
    /// with `measure` units per product; see `linked`. When no specification has that name,
    /// nothing is written and `None` comes back; else the number of products linked, as
    /// `named_count` counts them.
    pub fn link_products_to_specification(
        &mut self,
        branch_id: u128,
        product_name: &str,
        specification_name: &str,
        measure: i32,
    ) -> (r: Option<usize>)
        ensures
            !has_named(old(self).specifications@, branch_id, lower_of(specification_name@)) ==> r is None
                && *final(self) == *old(self),
            has_named(old(self).specifications@, branch_id, lower_of(specification_name@)) ==> {
                &&& r == Some(
                    named_count(
                        old(self).products@,
                        old(self).products@.len() as int,
                        branch_id,
                        lower_of(product_name@),
                    ) as usize,
                )
                &&& only_edges_changed(*old(self), *final(self))
                &&& exists|i: int|
                    is_first_named(old(self).specifications@, branch_id, lower_of(specification_name@), i)
                        && #[trigger] linked(
                        old(self).product_specifications@,
                        final(self).product_specifications@,
                        old(self).products@,
                        old(self).products@.len() as int,
                        branch_id,
                        lower_of(product_name@),
                        old(self).specifications@[i].id,
                        measure,
                    )
            },
    {
        let lproduct = lowercase(product_name);
        let lspec = lowercase(specification_name);
        let si = match self.find_specification_by_name(branch_id, lspec.as_str()) {
            None => {
                return None;
            },
            Some(si) => si,
        };
        let sid = self.specifications[si].id;
        let ghost s0 = *self;
        let ghost lname = lproduct@;
        let mut count: usize = 0;
        let mut i: usize = 0;
        proof {
            assert forall|j: int| 0 <= j < s0.product_specifications@.len() implies {
                &&& (#[trigger] self.product_specifications@[j]).product_id == s0.product_specifications@[j].product_id
                &&& self.product_specifications@[j].specification_id == s0.product_specifications@[j].specification_id
            } by {}
        }
        while i < self.products.len()
            invariant
                i <= self.products@.len(),
                count <= i,
                count == named_count(s0.products@, i as int, branch_id, lname),
                lname == lower_of(product_name@),
                lproduct@ == lname,
                only_edges_changed(s0, *self),
                si < s0.specifications@.len(),
                sid == s0.specifications@[si as int].id,
                linked(
                    s0.product_specifications@,
                    self.product_specifications@,
                    s0.products@,
                    i as int,
                    branch_id,
                    lname,
                    sid,
                    measure,
                ),
            decreases self.products@.len() - i,
        {
            let mut is_named = false;
            if self.products[i].branch_id == branch_id && self.products[i].deleted_at.is_none() {
                let lp = lowercase(self.products[i].name.as_str());
                is_named = contains_text(lp.as_str(), lproduct.as_str());
            }
            assert(is_named == named_like(s0.products@[i as int], branch_id, lname));
            if is_named {
                let pid = self.products[i].id;
                let ghost before = self.product_specifications@;
                let edge = ProductSpecification { product_id: pid, specification_id: sid, quantity: measure };
                let at = self.upsert_edge(pid, sid, measure);
                proof {
                    let old_e = s0.product_specifications@;
                    let after = self.product_specifications@;
                    assert(named_like(s0.products@[i as int], branch_id, lname));
                    assert(after[at as int] == edge);
                    assert forall|k: int|
                        0 <= k < i + 1 && named_like(#[trigger] s0.products@[k], branch_id, lname) implies after.contains(
                        ProductSpecification { product_id: s0.products@[k].id, specification_id: sid, quantity: measure },
                    ) by {
                        let ek = ProductSpecification { product_id: s0.products@[k].id, specification_id: sid, quantity: measure };
                        if k < i {
                            assert(before.contains(ek));
                            let w = choose|w: int| 0 <= w < before.len() && before[w] == ek;
                            assert(after[w] == ek);
                        } else {
                            assert(after[at as int] == ek);
                        }
                    }
                    assert forall|j: int| 0 <= j < old_e.len() implies {
                        &&& (#[trigger] after[j]).product_id == old_e[j].product_id
                        &&& after[j].specification_id == old_e[j].specification_id
                        &&& (after[j].quantity == old_e[j].quantity || (
                        old_e[j].specification_id == sid && after[j].quantity == measure))
                    } by {
                        assert(before[j].product_id == old_e[j].product_id);
                    }
                    // The first edge of `pid` into `sid` is at the same place before and in `old_e`.
                    if has_edge(old_e, pid, sid) {
                        let w = choose|w: int| 0 <= w < old_e.len() && (#[trigger] old_e[w]).product_id == pid && old_e[w].specification_id == sid;
                        assert(before[w].product_id == pid && before[w].specification_id == sid);
                        assert(has_edge(before, pid, sid));
                        assert((at as int) < old_e.len()) by {
                            if at as int >= old_e.len() {
                                assert(!(before[w].product_id == pid && before[w].specification_id == sid));
                            }
                        }
                        assert(old_e[at as int].product_id == pid);
                    }
                    assert forall|j: int|
                        0 <= j < old_e.len() && is_first_edge(old_e, old_e[j].product_id, sid, j) && named_product_id(
                            s0.products@, i + 1, branch_id, lname, old_e[j].product_id,
                        ) implies (#[trigger] after[j]).quantity == measure by {
                        if old_e[j].product_id == pid {
                            assert(has_edge(old_e, pid, sid));
                            assert(is_first_edge(before, pid, sid, at as int));
                            if (at as int) < j {
                                assert(old_e[at as int].product_id == pid && old_e[at as int].specification_id == sid);
                            } else if j < (at as int) {
                                assert(before[j].product_id == pid && before[j].specification_id == sid);
                            }
                        } else {
                            let k = choose|k: int| 0 <= k < i + 1 && named_like(#[trigger] s0.products@[k], branch_id, lname)
                                && s0.products@[k].id == old_e[j].product_id;
                            assert(k != i);
                            assert(named_product_id(s0.products@, i as int, branch_id, lname, old_e[j].product_id));
                            assert(before[j].quantity == measure);
                            if j == at as int {
                                assert(before[j].product_id == old_e[j].product_id);
                            }
                        }
                    }
                    assert forall|j: int| old_e.len() <= j < after.len() implies linked_edge(
                        s0.products@, branch_id, lname, sid, measure, #[trigger] after[j],
                    ) && !has_edge(old_e, after[j].product_id, sid) by {
                        if j == at as int && j >= before.len() {
                            assert(s0.products@[i as int].id == after[j].product_id);
                            assert(!has_edge(before, pid, sid));
                            if has_edge(old_e, pid, sid) {
                                let w = choose|w: int| 0 <= w < old_e.len() && (#[trigger] old_e[w]).product_id == pid && old_e[w].specification_id == sid;
                                assert(before[w].product_id == pid && before[w].specification_id == sid);
                            }
                        } else if j == at as int {
                            assert(before[j].product_id == pid);
                            assert(s0.products@[i as int].id == after[j].product_id);
                        } else {
                            assert(after[j] == before[j]);
                        }
                    }
                    assert forall|x: int, y: int|
                        old_e.len() <= x < y < after.len() implies (#[trigger] after[x]).product_id != (#[trigger] after[y]).product_id by {
                        if y == before.len() && y == at as int {
                            assert(!has_edge(before, pid, sid));
                            assert(before[x].specification_id == sid);
                            assert(before[x].product_id != pid);
                        } else if x == at as int {
                            assert(before[x].product_id == pid);
                        } else if y == at as int {
                            assert(before[y].product_id == pid);
                        }
                    }
                    assert(named_count(s0.products@, i + 1, branch_id, lname) == named_count(s0.products@, i as int, branch_id, lname) + 1);
                }
                count = count + 1;
            } else {
                proof {
                    let cur = self.product_specifications@;
                    assert forall|k: int|
                        0 <= k < i + 1 && named_like(#[trigger] s0.products@[k], branch_id, lname) implies cur.contains(
                        ProductSpecification { product_id: s0.products@[k].id, specification_id: sid, quantity: measure },
                    ) by {
                        if k == i {
                        }
                    }
                    let old_e = s0.product_specifications@;
                    assert forall|j: int|
                        0 <= j < old_e.len() && is_first_edge(old_e, old_e[j].product_id, sid, j) && named_product_id(
                            s0.products@, i + 1, branch_id, lname, old_e[j].product_id,
                        ) implies (#[trigger] cur[j]).quantity == measure by {
                        let k = choose|k: int| 0 <= k < i + 1 && named_like(#[trigger] s0.products@[k], branch_id, lname)
                            && s0.products@[k].id == old_e[j].product_id;
                        assert(k != i);
                        assert(named_product_id(s0.products@, i as int, branch_id, lname, old_e[j].product_id));
                    }
                    assert(named_count(s0.products@, i + 1, branch_id, lname) == named_count(s0.products@, i as int, branch_id, lname));
                }
            }
            i = i + 1;
        }
        proof {
            assert(is_first_named(s0.specifications@, branch_id, lower_of(specification_name@), si as int));
        }
        Some(count)
    }
}

} // verus!
