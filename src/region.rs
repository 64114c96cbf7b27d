//! The hand-placed layer's region: a bounded grid of write-once slots.
use vstd::prelude::*;
use crate::cell::RegionCell;
use crate::error::BridgeError;
use crate::field::FieldValue;

verus! {

/// A rectangular region of `num_columns` columns by `num_rows` rows. Each slot
/// is committed at most once.
pub struct RegionAllocator {
    num_columns: usize,
    num_rows: usize,
    slots: Vec<Option<FieldValue>>,
}

proof fn lemma_slot_index(column: int, row: int, num_columns: int, num_rows: int)
    requires
        0 <= column < num_columns,
        0 <= row < num_rows,
    ensures
        0 <= column * num_rows + row < num_columns * num_rows,
{
    assert(0 <= column * num_rows + row < num_columns * num_rows) by (nonlinear_arith)
        requires
            0 <= column < num_columns,
            0 <= row < num_rows,
    ;
}

impl RegionAllocator {
    /// Number of columns.
    pub closed spec fn columns(&self) -> nat {
        self.num_columns as nat
    }

    /// Number of rows.
    pub closed spec fn rows(&self) -> nat {
        self.num_rows as nat
    }

    /// Whether `cell` lies inside the region.
    pub open spec fn contains(&self, cell: RegionCell) -> bool {
        cell.column < self.columns() && cell.row < self.rows()
    }

    /// The value committed at `cell`, if any.
    pub closed spec fn slot(&self, cell: RegionCell) -> Option<FieldValue> {
        if self.contains(cell) {
            self.slots@[cell.column * self.num_rows + cell.row]
        } else {
            None
        }
    }

    pub closed spec fn wf(&self) -> bool {
        &&& self.slots@.len() == self.num_columns * self.num_rows
        &&& self.num_columns * self.num_rows <= usize::MAX
    }

    /// An empty region.
    pub fn new(num_columns: usize, num_rows: usize) -> (r: RegionAllocator)
        requires
            num_columns * num_rows <= usize::MAX,
        ensures
            r.wf(),
            r.columns() == num_columns,
            r.rows() == num_rows,
            forall|c: RegionCell| #[trigger] r.slot(c) is None,
    {
        let total = num_columns * num_rows;
        let mut slots: Vec<Option<FieldValue>> = Vec::new();
        let mut i: usize = 0;
        while i < total
            invariant
                i <= total,
                slots@.len() == i,
                forall|j: int| 0 <= j < i ==> slots@[j] is None,
            decreases total - i,
        {
            slots.push(None);
            i = i + 1;
        }
        let r = RegionAllocator { num_columns, num_rows, slots };
        proof {
            assert forall|c: RegionCell| #[trigger] r.slot(c) is None by {
                if r.contains(c) {
                    lemma_slot_index(
                        c.column as int,
                        c.row as int,
                        num_columns as int,
                        num_rows as int,
                    );
                }
            }
        }
        r
    }

    /// Commits `value` at `cell`. A slot is written once: a second write is
    /// refused with `AlreadyAssigned` and leaves the region as it was.
    pub fn assign(&mut self, cell: RegionCell, value: FieldValue) -> (r: Result<
        RegionCell,
        BridgeError,
    >)
        requires
            old(self).wf(),
            old(self).contains(cell),
        ensures
            final(self).wf(),
            final(self).columns() == old(self).columns(),
            final(self).rows() == old(self).rows(),
            old(self).slot(cell) is Some ==> r == Err::<RegionCell, BridgeError>(
                BridgeError::AlreadyAssigned,
            ) && *final(self) == *old(self),
            old(self).slot(cell) is None ==> r == Ok::<RegionCell, BridgeError>(cell) && forall|
                c: RegionCell,
            |
                #[trigger] final(self).slot(c) == if c == cell {
                    Some(value)
                } else {
                    old(self).slot(c)
                },
    {
        proof {
            lemma_slot_index(
                cell.column as int,
                cell.row as int,
                self.num_columns as int,
                self.num_rows as int,
            );
        }
        let index = cell.column * self.num_rows + cell.row;
        if self.slots[index].is_some() {
            return Err(BridgeError::AlreadyAssigned);
        }
        self.slots.set(index, Some(value));
        proof {
            assert forall|c: RegionCell| #[trigger]
                self.slot(c) == if c == cell {
                    Some(value)
                } else {
                    old(self).slot(c)
                } by {
                if self.contains(c) && c != cell {
                    lemma_slot_distinct(c, cell, self.num_rows as int);
                    lemma_slot_index(
                        c.column as int,
                        c.row as int,
                        self.num_columns as int,
                        self.num_rows as int,
                    );
                }
            }
        }
        Ok(cell)
    }

    /// The value committed at `cell`, or `None` when the slot is empty or
    /// outside the region.
    pub fn value_at(&self, cell: RegionCell) -> (r: Option<FieldValue>)
        requires
            self.wf(),
        ensures
            r == self.slot(cell),
    {
        if cell.column < self.num_columns && cell.row < self.num_rows {
            proof {
                lemma_slot_index(
                    cell.column as int,
                    cell.row as int,
                    self.num_columns as int,
                    self.num_rows as int,
                );
            }
            self.slots[cell.column * self.num_rows + cell.row]
        } else {
            None
        }
    }
}

proof fn lemma_slot_distinct(a: RegionCell, b: RegionCell, num_rows: int)
    requires
        a != b,
        a.row < num_rows,
        b.row < num_rows,
    ensures
        a.column * num_rows + a.row != b.column * num_rows + b.row,
{
    if a.column == b.column {
        assert(a.row != b.row);
    } else {
        assert(a.column * num_rows + a.row != b.column * num_rows + b.row) by (nonlinear_arith)
            requires
                a.column != b.column,
                0 <= a.row < num_rows,
                0 <= b.row < num_rows,
        ;
    }
}

} // verus!
