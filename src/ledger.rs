use crate::error::{CoreError, Field};
use crate::records::{FlowType, SpecificationHistory, Store};
use vstd::prelude::*;

verus! {

/// Row `i` is the latest ledger row of specification `sid`: no row of it is newer, and
/// among rows of the same time it was inserted last.
pub open spec fn is_latest(rows: Seq<SpecificationHistory>, sid: u128, i: int) -> bool {
    &&& 0 <= i < rows.len()
    &&& rows[i].specification_id == sid
    &&& forall|j: int|
        #![trigger rows[j]]
        0 <= j < rows.len() && rows[j].specification_id == sid ==> (rows[j].created_at
            < rows[i].created_at || (rows[j].created_at == rows[i].created_at && j <= i))
}

/// Specification `sid` has at least one ledger row.
pub open spec fn has_history(rows: Seq<SpecificationHistory>, sid: u128) -> bool {
    exists|i: int| 0 <= i < rows.len() && #[trigger] rows[i].specification_id == sid
}

/// The current unit price of `sid`: the unit price of its latest ledger row, if it has one.
pub open spec fn latest_price(rows: Seq<SpecificationHistory>, sid: u128) -> Option<i64> {
    if has_history(rows, sid) {
        Some(rows[choose|i: int| is_latest(rows, sid, i)].unit_price)
    } else {
        None
    }
}

/// At most one row is the latest of a specification.
pub proof fn lemma_latest_unique(rows: Seq<SpecificationHistory>, sid: u128, i: int, k: int)
    requires
        is_latest(rows, sid, i),
        is_latest(rows, sid, k),
    ensures
        i == k,
{
    assert(rows[k].specification_id == sid);
    assert(rows[i].specification_id == sid);
}

/// The ledger row that `Store::post_entry` appends.
pub open spec fn entry_of(
    specification_id: u128,
    flow_type: FlowType,
    quantity: i64,
    price: i64,
    unit_price: i64,
    transaction_item_id: Option<usize>,
    created_by: u128,
    note: Option<String>,
    created_at: i64,
) -> SpecificationHistory {
    SpecificationHistory {
        specification_id,
        flow_type,
        quantity,
        price,
        unit_price,
        transaction_item_id,
        created_by,
        note,
        created_at,
    }
}

impl Store {
    /// The unit price of the most recent ledger row of `specification_id`, ties going to the
    /// row inserted last; `None` when the specification has no history.
    pub fn latest_unit_price(&self, specification_id: u128) -> (r: Option<i64>)
        ensures
            r == latest_price(self.ledger@, specification_id),
    {
        let rows = &self.ledger;
        let mut best: Option<usize> = None;
        let mut i: usize = 0;
        while i < rows.len()
            invariant
                i <= rows@.len(),
                best is None ==> forall|j: int|
                    0 <= j < i ==> #[trigger] rows@[j].specification_id != specification_id,
                best matches Some(b) ==> b < i && is_latest(rows@.take(i as int), specification_id, b as int),
            decreases rows@.len() - i,
        {
            let row = &rows[i];
            if row.specification_id == specification_id {
                let newer = match best {
                    None => true,
                    Some(b) => rows[b].created_at <= row.created_at,
                };
                if newer {
                    best = Some(i);
                }
            }
            proof {
                let prefix = rows@.take(i + 1);
                assert forall|j: int| 0 <= j < i + 1 implies #[trigger] prefix[j] == rows@[j] by {}
                assert forall|j: int| 0 <= j < i implies #[trigger] rows@.take(i as int)[j] == rows@[j] by {}
            }
            i = i + 1;
        }
        proof {
            assert(rows@.take(i as int) =~= rows@);
        }
        match best {
            None => {
                assert(!has_history(rows@, specification_id));
                None
            },
            Some(b) => {
                proof {
                    assert(rows@[b as int].specification_id == specification_id);
                    assert(has_history(rows@, specification_id));
                    let w = choose|k: int| is_latest(rows@, specification_id, k);
                    lemma_latest_unique(rows@, specification_id, b as int, w);
                }
                Some(rows[b].unit_price)
            },
        }
    }

    /// Appends one ledger row and returns its position. Prior rows are never touched.
    /// A quantity that is not positive, or a negative unit price, is refused.
    pub fn post_entry(
        &mut self,
        specification_id: u128,
        flow_type: FlowType,
        quantity: i64,
        price: i64,
        unit_price: i64,
        transaction_item_id: Option<usize>,
        created_by: u128,
        note: Option<String>,
        created_at: i64,
    ) -> (r: Result<usize, CoreError>)
        ensures
            quantity <= 0 ==> r == Err::<usize, CoreError>(CoreError::ValidationFailed(Field::Quantity)),
            quantity > 0 && unit_price < 0 ==> r == Err::<usize, CoreError>(
                CoreError::ValidationFailed(Field::UnitPrice),
            ),
            r is Err ==> *final(self) == *old(self),
            quantity > 0 && unit_price >= 0 ==> {
                &&& r == Ok::<usize, CoreError>(old(self).ledger@.len() as usize)
                &&& final(self).ledger@ == old(self).ledger@.push(
                    entry_of(
                        specification_id,
                        flow_type,
                        quantity,
                        price,
                        unit_price,
                        transaction_item_id,
                        created_by,
                        note,
                        created_at,
                    ),
                )
                &&& final(self).branches == old(self).branches
                &&& final(self).users == old(self).users
                &&& final(self).specifications == old(self).specifications
                &&& final(self).products == old(self).products
                &&& final(self).product_specifications == old(self).product_specifications
                &&& final(self).transactions == old(self).transactions
                &&& final(self).transaction_items == old(self).transaction_items
            },
    {
        if quantity <= 0 {
            return Err(CoreError::ValidationFailed(Field::Quantity));
        }
        if unit_price < 0 {
            return Err(CoreError::ValidationFailed(Field::UnitPrice));
        }
        let position = self.ledger.len();
        self.ledger.push(
            SpecificationHistory {
                specification_id,
                flow_type,
                quantity,
                price,
                unit_price,
                transaction_item_id,
                created_by,
                note,
                created_at,
            },
        );
        Ok(position)
    }
}

} // verus!
