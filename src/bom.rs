use crate::error::{CoreError, Entity};
use crate::ledger::latest_price;
use crate::records::{Product, ProductSpecification, Specification, SpecificationHistory, Store};
use vstd::prelude::*;

verus! {

/// Product `p` is a live product of `branch_id` with reference `reference_id`.
pub open spec fn product_matches(p: Product, branch_id: u128, reference_id: u128) -> bool {
    p.branch_id == branch_id && p.reference_id == reference_id && (p.deleted_at is None)
}

/// Some live product of the branch carries the reference.
pub open spec fn has_product(products: Seq<Product>, branch_id: u128, reference_id: u128) -> bool {
    exists|i: int| 0 <= i < products.len() && product_matches(#[trigger] products[i], branch_id, reference_id)
}

/// Row `i` is the matching product added last.
pub open spec fn is_current_product(
    products: Seq<Product>,
    branch_id: u128,
    reference_id: u128,
    i: int,
) -> bool {
    &&& 0 <= i < products.len()
    &&& product_matches(products[i], branch_id, reference_id)
    &&& forall|j: int|
        i < j < products.len() ==> !product_matches(#[trigger] products[j], branch_id, reference_id)
}

/// Specification `sid` exists and is not soft-deleted.
pub open spec fn spec_is_active(specs: Seq<Specification>, sid: u128) -> bool {
    exists|k: int| 0 <= k < specs.len() && (#[trigger] specs[k]).id == sid && (specs[k].deleted_at is None)
}

/// Edge `e` belongs to product `pid` and leads to a live specification.
pub open spec fn edge_in_bom(specs: Seq<Specification>, pid: u128, e: ProductSpecification) -> bool {
    e.product_id == pid && spec_is_active(specs, e.specification_id)
}

/// The bill of materials of product `pid`: its edges to live specifications, in edge order.
pub open spec fn bom_edges(
    edges: Seq<ProductSpecification>,
    specs: Seq<Specification>,
    pid: u128,
) -> Seq<ProductSpecification>
    decreases edges.len(),
{
    if edges.len() == 0 {
        Seq::empty()
    } else {
        let rest = bom_edges(edges.drop_last(), specs, pid);
        if edge_in_bom(specs, pid, edges.last()) {
            rest.push(edges.last())
        } else {
            rest
        }
    }
}

/// Row `k` is the first live specification with identity `sid`.
pub open spec fn is_first_active(specs: Seq<Specification>, sid: u128, k: int) -> bool {
    &&& 0 <= k < specs.len()
    &&& specs[k].id == sid
    &&& (specs[k].deleted_at is None)
    &&& forall|j: int| 0 <= j < k ==> !((#[trigger] specs[j]).id == sid && (specs[j].deleted_at is None))
}

/// At most one row is the first live specification of an identity.
pub proof fn lemma_first_active_unique(specs: Seq<Specification>, sid: u128, i: int, k: int)
    requires
        is_first_active(specs, sid, i),
        is_first_active(specs, sid, k),
    ensures
        i == k,
{
    if i < k {
        assert(specs[i].id == sid);
    } else if k < i {
        assert(specs[k].id == sid);
    }
}

/// One resolved recipe entry: the specification with its name and unit, how much of it one
/// unit of the product consumes, and its current unit price in hundredths, if it has any
/// ledger history.
#[derive(Clone, Debug)]
pub struct BomLine {
    pub specification_id: u128,
    pub name: String,
    pub unit: String,
    pub quantity_per_unit: i32,
    pub latest_unit_price: Option<i64>,
}

/// The resolved line of edge `e` in store `s`: name and unit come from the first live row of
/// the specification, the price from the ledger.
pub open spec fn bom_line_of(s: Store, e: ProductSpecification) -> BomLine {
    let k = choose|k: int| is_first_active(s.specifications@, e.specification_id, k);
    BomLine {
        specification_id: e.specification_id,
        name: s.specifications@[k].name,
        unit: s.specifications@[k].unit,
        quantity_per_unit: e.quantity,
        latest_unit_price: latest_price(s.ledger@, e.specification_id),
    }
}

/// The resolved bill of materials of product `pid` in store `s`.
pub open spec fn bom_lines(s: Store, pid: u128) -> Seq<BomLine> {
    bom_edges(s.product_specifications@, s.specifications@, pid).map_values(
        |e: ProductSpecification| bom_line_of(s, e),
    )
}

/// When a live product of the branch carries the reference, one of them was added last.
pub proof fn lemma_current_product_exists(products: Seq<Product>, branch_id: u128, reference_id: u128, w: int)
    requires
        0 <= w < products.len(),
        product_matches(products[w], branch_id, reference_id),
    ensures
        exists|i: int| is_current_product(products, branch_id, reference_id, i),
    decreases products.len() - w,
{
    if exists|j: int| w < j < products.len() && product_matches(#[trigger] products[j], branch_id, reference_id) {
        let j = choose|j: int| w < j < products.len() && product_matches(#[trigger] products[j], branch_id, reference_id);
        lemma_current_product_exists(products, branch_id, reference_id, j);
    } else {
        assert(is_current_product(products, branch_id, reference_id, w));
    }
}

/// A product together with its resolved bill of materials.
#[derive(Clone, Debug)]
pub struct ResolvedProduct {
    pub product_index: usize,
    pub product_id: u128,
    pub name: String,
    pub reference_id: u128,
    pub lines: Vec<BomLine>,
}

impl Store {
    /// Position of the matching product added last, if any.
    pub fn find_product(&self, branch_id: u128, reference_id: u128) -> (r: Option<usize>)
        ensures
            r is None <==> !has_product(self.products@, branch_id, reference_id),
            r matches Some(i) ==> is_current_product(self.products@, branch_id, reference_id, i as int),
    {
        let products = &self.products;
        let mut found: Option<usize> = None;
        let mut i: usize = 0;
        while i < products.len()
            invariant
                i <= products@.len(),
                found is None ==> forall|j: int|
                    0 <= j < i ==> !product_matches(#[trigger] products@[j], branch_id, reference_id),
                found matches Some(b) ==> b < i && product_matches(products@[b as int], branch_id, reference_id)
                    && forall|j: int|
                    b < j < i ==> !product_matches(#[trigger] products@[j], branch_id, reference_id),
            decreases products@.len() - i,
        {
            let p = &products[i];
            if p.branch_id == branch_id && p.reference_id == reference_id && p.deleted_at.is_none() {
                found = Some(i);
            }
            i = i + 1;
        }
        proof {
            if let Some(b) = found {
                assert(product_matches(products@[b as int], branch_id, reference_id));
            }
        }
        found
    }

    /// Position of the first live specification with identity `specification_id`, if any.
    pub fn active_specification(&self, specification_id: u128) -> (r: Option<usize>)
        ensures
            r is None <==> !spec_is_active(self.specifications@, specification_id),
            r matches Some(k) ==> is_first_active(self.specifications@, specification_id, k as int),
    {
        let mut i: usize = 0;
        while i < self.specifications.len()
            invariant
                i <= self.specifications@.len(),
                forall|k: int|
                    0 <= k < i ==> !((#[trigger] self.specifications@[k]).id == specification_id
                        && (self.specifications@[k].deleted_at is None)),
            decreases self.specifications@.len() - i,
        {
            if self.specifications[i].id == specification_id && self.specifications[i].deleted_at.is_none() {
                assert(self.specifications@[i as int].id == specification_id);
                return Some(i);
            }
            i = i + 1;
        }
        None
    }

    /// The bill of materials of product `product_id`, each entry with its current unit price.
    pub fn bom_of(&self, product_id: u128) -> (r: Vec<BomLine>)
        ensures
            r@ == bom_lines(*self, product_id),
    {
        let edges = &self.product_specifications;
        let mut lines: Vec<BomLine> = Vec::new();
        let mut i: usize = 0;
        while i < edges.len()
            invariant
                i <= edges@.len(),
                lines@ == bom_edges(edges@.take(i as int), self.specifications@, product_id).map_values(
                    |e: ProductSpecification| bom_line_of(*self, e),
                ),
            decreases edges@.len() - i,
        {
            let e = edges[i];
            let ghost f = |e: ProductSpecification| bom_line_of(*self, e);
            proof {
                let next = edges@.take(i + 1);
                assert(next.drop_last() =~= edges@.take(i as int));
                assert(next.last() == e);
            }
            let ghost before = bom_edges(edges@.take(i as int), self.specifications@, product_id);
            let active = if e.product_id == product_id {
                self.active_specification(e.specification_id)
            } else {
                None
            };
            if let Some(k) = active {
                let price = self.latest_unit_price(e.specification_id);
                let line = BomLine {
                    specification_id: e.specification_id,
                    name: self.specifications[k].name.clone(),
                    unit: self.specifications[k].unit.clone(),
                    quantity_per_unit: e.quantity,
                    latest_unit_price: price,
                };
                proof {
                    let c = choose|c: int| is_first_active(self.specifications@, e.specification_id, c);
                    lemma_first_active_unique(self.specifications@, e.specification_id, c, k as int);
                    assert(line == f(e));
                }
                lines.push(line);
                proof {
                    assert(before.push(e).map_values(f) =~= before.map_values(f).push(f(e)));
                }
            }
            i = i + 1;
        }
        proof {
            assert(edges@.take(i as int) =~= edges@);
        }
        lines
    }

    /// Resolves a product reference of a branch to its live product (the one added last)
    /// and that product's bill of materials. An unknown reference is `NotFound(Product)`.
    pub fn resolve(&self, branch_id: u128, reference_id: u128) -> (r: Result<ResolvedProduct, CoreError>)
        ensures
            r is Err <==> !has_product(self.products@, branch_id, reference_id),
            r is Err ==> r == Err::<ResolvedProduct, CoreError>(CoreError::NotFound(Entity::Product)),
            r matches Ok(rp) ==> {
                &&& is_current_product(self.products@, branch_id, reference_id, rp.product_index as int)
                &&& rp.product_id == self.products@[rp.product_index as int].id
                &&& rp.name == self.products@[rp.product_index as int].name
                &&& rp.reference_id == reference_id
                &&& rp.lines@ == bom_lines(*self, rp.product_id)
            },
    {
        match self.find_product(branch_id, reference_id) {
            None => Err(CoreError::NotFound(Entity::Product)),
            Some(i) => {
                let p = &self.products[i];
                let lines = self.bom_of(p.id);
                Ok(
                    ResolvedProduct {
                        product_index: i,
                        product_id: p.id,
                        name: p.name.clone(),
                        reference_id: p.reference_id,
                        lines,
                    },
                )
            },
        }
    }
}

/// The cost of one unit of a product from its resolved recipe: the sum of
/// `quantity_per_unit * latest_unit_price` over the entries that have a price, in hundredths;
/// `None` when no entry has one.
pub open spec fn cost_sum(lines: Seq<BomLine>) -> Option<int>
    decreases lines.len(),
{
    if lines.len() == 0 {
        None
    } else {
        let before = cost_sum(lines.drop_last());
        match lines.last().latest_unit_price {
            None => before,
            Some(p) => Some(
                match before {
                    None => 0,
                    Some(c) => c,
                } + lines.last().quantity_per_unit * p,
            ),
        }
    }
}

/// Every running total of the cost, line by line, fits in `i64`.
pub open spec fn cost_fits(lines: Seq<BomLine>) -> bool {
    forall|k: int|
        0 <= k <= lines.len() ==> match #[trigger] cost_sum(lines.take(k)) {
            None => true,
            Some(c) => i64::MIN <= c <= i64::MAX,
        }
}

/// The cost of one unit of a product from its resolved recipe; see `cost_sum`. A running
/// total outside `i64` is an arithmetic failure.
pub fn cost_of_lines(lines: &Vec<BomLine>) -> (r: Result<Option<i64>, CoreError>)
    ensures
        r is Ok <==> cost_fits(lines@),
        r matches Ok(c) ==> match cost_sum(lines@) {
            None => c is None,
            Some(v) => c == Some(v as i64),
        },
        r is Err ==> r == Err::<Option<i64>, CoreError>(CoreError::ArithmeticFailure),
{
    let mut total: Option<i64> = None;
    let mut i: usize = 0;
    proof {
        assert(lines@.take(0) =~= Seq::<BomLine>::empty());
    }
    while i < lines.len()
        invariant
            i <= lines@.len(),
            match cost_sum(lines@.take(i as int)) {
                None => total is None,
                Some(v) => total == Some(v as i64) && i64::MIN <= v <= i64::MAX,
            },
            forall|k: int|
                0 <= k <= i ==> match #[trigger] cost_sum(lines@.take(k)) {
                    None => true,
                    Some(c) => i64::MIN <= c <= i64::MAX,
                },
        decreases lines@.len() - i,
    {
        let l = &lines[i];
        proof {
            let next = lines@.take(i + 1);
            assert(next.drop_last() =~= lines@.take(i as int));
            assert(next.last() == l);
        }
        if let Some(p) = l.latest_unit_price {
            proof {
                let a = l.quantity_per_unit as int;
                let c = p as int;
                assert(-0x8000_0000 * 0x8000_0000_0000_0000 <= a * c <= 0x8000_0000 * 0x8000_0000_0000_0000)
                    by (nonlinear_arith)
                    requires
                        -0x8000_0000 <= a <= 0x7fff_ffff,
                        -0x8000_0000_0000_0000 <= c <= 0x7fff_ffff_ffff_ffff,
                ;
            }
            let before: i128 = match total {
                None => 0,
                Some(t) => t as i128,
            };
            let sum: i128 = before + (l.quantity_per_unit as i128) * (p as i128);
            if sum < i64::MIN as i128 || sum > i64::MAX as i128 {
                proof {
                    let k = i + 1;
                    let prefix = lines@.take(k as int);
                    assert(prefix.drop_last() =~= lines@.take(i as int));
                    assert(prefix.last() == l);
                    assert(cost_sum(prefix) == Some(sum as int));
                    assert(!cost_fits(lines@));
                }
                return Err(CoreError::ArithmeticFailure);
            }
            total = Some(sum as i64);
        }
        i = i + 1;
    }
    proof {
        assert(lines@.take(i as int) =~= lines@);
    }
    Ok(total)
}

impl Store {
    /// The cost of one unit of product `product_id` from its current recipe and prices.
    pub fn cost_of_product(&self, product_id: u128) -> (r: Result<Option<i64>, CoreError>)
        ensures
            r is Ok <==> cost_fits(bom_lines(*self, product_id)),
            r matches Ok(c) ==> match cost_sum(bom_lines(*self, product_id)) {
                None => c is None,
                Some(v) => c == Some(v as i64),
            },
            r is Err ==> r == Err::<Option<i64>, CoreError>(CoreError::ArithmeticFailure),
    {
        let lines = self.bom_of(product_id);
        cost_of_lines(&lines)
    }
}

} // verus!
