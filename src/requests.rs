use crate::error::{CoreError, Entity, Field};
use crate::posting::contains_id;
use crate::pricing::{lowest_price, scaled_quotient};
use crate::catalog::has_named;
use crate::records::{Specification, Store};
use crate::text::{lower_of, lowercase};
use vstd::prelude::*;

verus! {

/// Credentials of a sign-in.
pub struct RequestLogin {
    pub email: String,
    pub password: String,
}

/// A new account.
pub struct RequestCreateUser {
    pub name: String,
    pub email: String,
    pub password: String,
}

/// A text for the caller, with optional detail for debugging.
pub struct Message {
    pub value: String,
    pub debug: Option<String>,
}

/// A new specification of a branch; `raw_price` is in hundredths.
pub struct RequestFormSpecification {
    pub name: String,
    pub unit: String,
    pub unit_name: String,
    pub smallest_unit: i32,
    pub raw_price: i32,
}

/// What adding a specification named `name` (already lower-case) to a branch decides, in
/// order: the branch must exist, the smallest unit must be positive, and the name must be
/// free in the branch.
pub open spec fn creation_check(s: Store, branch_id: u128, name: Seq<char>, smallest_unit: i32) -> Option<CoreError> {
    if !s.branches@.contains(branch_id) {
        Some(CoreError::NotFound(Entity::Branch))
    } else if smallest_unit <= 0 {
        Some(CoreError::ValidationFailed(Field::SmallestUnit))
    } else if has_named(s.specifications@, branch_id, name) {
        Some(CoreError::ValidationFailed(Field::Name))
    } else {
        None
    }
}

/// `new` is `old` with one more specification, `row`, and nothing else changed.
pub open spec fn specification_added(old: Store, new: Store, row: Specification) -> bool {
    &&& new.specifications@ == old.specifications@.push(row)
    &&& new.branches == old.branches
    &&& new.users == old.users
    &&& new.products == old.products
    &&& new.product_specifications == old.product_specifications
    &&& new.ledger == old.ledger
    &&& new.transactions == old.transactions
    &&& new.transaction_items == old.transaction_items
}

/// The specification row created with identity `new_id` from already lower-cased names.
pub open spec fn created_row(
    branch_id: u128,
    new_id: u128,
    name: String,
    unit: String,
    unit_name: String,
    smallest_unit: i32,
    raw_price: i32,
    now: i64,
) -> Specification {
    Specification {
        id: new_id,
        branch_id,
        name,
        smallest_unit,
        unit_name,
        unit,
        lowest_price: scaled_quotient(raw_price as int, smallest_unit as int, 0) as i64,
        raw_price,
        created_at: now,
        deleted_at: None,
    }
}

impl Store {
    /// Adds a specification with identity `new_id` whose name and unit name are already
    /// lower-case; see `creation_check`. Its lowest price is `raw_price / smallest_unit`
    /// rounded half to even to a whole hundredth. Nothing is written on failure.
    pub fn create_specification_named(
        &mut self,
        branch_id: u128,
        new_id: u128,
        name: String,
        unit: String,
        unit_name: String,
        smallest_unit: i32,
        raw_price: i32,
        now: i64,
    ) -> (r: Result<usize, CoreError>)
        ensures
            match creation_check(*old(self), branch_id, name@, smallest_unit) {
                Some(e) => r == Err::<usize, CoreError>(e) && *final(self) == *old(self),
                None => r == Ok::<usize, CoreError>(old(self).specifications@.len() as usize) && specification_added(
                    *old(self),
                    *final(self),
                    created_row(branch_id, new_id, name, unit, unit_name, smallest_unit, raw_price, now),
                ),
            },
    {
        if !contains_id(&self.branches, branch_id) {
            return Err(CoreError::NotFound(Entity::Branch));
        }
        let price = match lowest_price(raw_price, smallest_unit) {
            Err(e) => {
                return Err(e);
            },
            Ok(p) => p,
        };
        if self.find_specification_by_name(branch_id, name.as_str()).is_some() {
            return Err(CoreError::ValidationFailed(Field::Name));
        }
        let i = self.specifications.len();
        self.specifications.push(
            Specification {
                id: new_id,
                branch_id,
                name,
                smallest_unit,
                unit_name,
                unit,
                lowest_price: price,
                raw_price,
                created_at: now,
                deleted_at: None,
            },
        );
        Ok(i)
    }

    /// Adds a specification to a branch from a request: its name and unit name are
    /// lower-cased, so names stay unique per branch whatever their case, then it is added as
    /// `create_specification_named` adds it.
    pub fn create_specification(&mut self, branch_id: u128, new_id: u128, req: &RequestFormSpecification, now: i64) -> (r:
        Result<usize, CoreError>)
        ensures
            match creation_check(*old(self), branch_id, lower_of(req.name@), req.smallest_unit) {
                Some(e) => r == Err::<usize, CoreError>(e) && *final(self) == *old(self),
                None => {
                    &&& r == Ok::<usize, CoreError>(old(self).specifications@.len() as usize)
                    &&& final(self).specifications@.len() == old(self).specifications@.len() + 1
                    &&& final(self).specifications@.drop_last() == old(self).specifications@
                    &&& final(self).specifications@.last().name@ == lower_of(req.name@)
                    &&& final(self).specifications@.last().unit_name@ == lower_of(req.unit_name@)
                    &&& final(self).specifications@.last() == created_row(
                        branch_id,
                        new_id,
                        final(self).specifications@.last().name,
                        req.unit,
                        final(self).specifications@.last().unit_name,
                        req.smallest_unit,
                        req.raw_price,
                        now,
                    )
                    &&& final(self).branches == old(self).branches
                    &&& final(self).users == old(self).users
                    &&& final(self).products == old(self).products
                    &&& final(self).product_specifications == old(self).product_specifications
                    &&& final(self).ledger == old(self).ledger
                    &&& final(self).transactions == old(self).transactions
                    &&& final(self).transaction_items == old(self).transaction_items
                },
            },
    {
        let name = lowercase(req.name.as_str());
        let unit_name = lowercase(req.unit_name.as_str());
        let r = self.create_specification_named(
            branch_id,
            new_id,
            name,
            req.unit.clone(),
            unit_name,
            req.smallest_unit,
            req.raw_price,
            now,
        );
        proof {
            if r is Ok {
                assert(self.specifications@.drop_last() =~= old(self).specifications@);
            }
        }
        r
    }
}

} // verus!
