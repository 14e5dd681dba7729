//! Range-indexed random tables: disjoint numeric ranges mapped to text,
//! queried by a roll's base result.

use vstd::prelude::*;
use crate::entities::NUMBER_LIMIT;
use crate::errors::EngineError;
use crate::outcome::Outcome;

verus! {

/// One table row: an inclusive `[lower, upper]` range and its text.
pub type TableRow = ((u32, u32), String);

/// Whether one row's range is acceptable: not decreasing, and under the
/// global numeric cap.
pub open spec fn spec_row_ok(lower: u32, upper: u32) -> bool {
    lower <= upper && upper < NUMBER_LIMIT as u32
}

/// Whether every row of the table is acceptable.
pub open spec fn spec_table_wf(rows: Seq<TableRow>) -> bool {
    forall|i: int| 0 <= i < rows.len() ==> spec_row_ok(#[trigger] rows[i].0.0, rows[i].0.1)
}

/// Whether `x` lies in the inclusive range `[lower, upper]`.
pub open spec fn spec_in_range(lower: u32, upper: u32, x: int) -> bool {
    lower <= x <= upper
}

/// The text of the last row, by insertion order, whose range contains `x`;
/// `None` when no row matches.
pub open spec fn spec_lookup(rows: Seq<TableRow>, x: int) -> Option<Seq<char>>
    decreases rows.len(),
{
    if rows.len() == 0 {
        None
    } else if spec_in_range(rows.last().0.0, rows.last().0.1, x) {
        Some(rows.last().1@)
    } else {
        spec_lookup(rows.drop_last(), x)
    }
}

/// The sentinel a lookup miss reports.
pub open spec fn spec_no_result() -> Seq<char> {
    "Roll failed to produce a value."@
}

/// What a table lookup renders: the matched text, or the sentinel exactly
/// when no row matches.
pub open spec fn spec_roll_text(rows: Seq<TableRow>, x: int) -> Seq<char> {
    match spec_lookup(rows, x) {
        Some(t) => t,
        None => spec_no_result(),
    }
}

/// The lower bound the next added row starts at: the upper bound of the most
/// recently added row, or zero for an empty table.
pub open spec fn spec_prev_upper(rows: Seq<TableRow>) -> u32 {
    if rows.len() == 0 {
        0
    } else {
        rows.last().0.1
    }
}

/// The upper bound an added row actually gets: the requested bound when it
/// strictly grows the range and stays under the cap, otherwise it degenerates
/// to a zero-width range at the previous boundary.
pub open spec fn spec_added_upper(rows: Seq<TableRow>, higher: u32) -> u32 {
    let lower = spec_prev_upper(rows);
    if higher > lower && higher < NUMBER_LIMIT as u32 {
        higher
    } else {
        lower
    }
}

/// An ordered sequence of ranges mapped to text, contiguous when grown
/// through `add_row`.
#[derive(Clone, Debug)]
pub struct Table {
    pub edit: bool,
    pub id: u32,
    pub order_num: u32,
    pub label: String,
    pub table: Vec<TableRow>,
}

impl Table {
    /// Builds a table from rows given in insertion order.
    ///
    /// Returns `InvalidTableRange`, and nothing else, exactly when some row
    /// has a decreasing range or an upper bound at or above the numeric cap.
    pub fn new(id: u32, order_num: u32, label: String, table: Vec<TableRow>) -> (r: Result<
        Table,
        EngineError,
    >)
        ensures
            match r {
                Ok(t) => {
                    &&& spec_table_wf(table@)
                    &&& t.table@ == table@
                    &&& t.id == id
                    &&& t.order_num == order_num
                    &&& t.label == label
                    &&& !t.edit
                },
                Err(e) => !spec_table_wf(table@) && e == EngineError::InvalidTableRange,
            },
    {
        let mut i: usize = 0;
        while i < table.len()
            invariant
                i <= table@.len(),
                forall|j: int| 0 <= j < i ==> spec_row_ok(#[trigger] table@[j].0.0, table@[j].0.1),
            decreases table@.len() - i,
        {
            let row = &table[i];
            if !(row.0.0 <= row.0.1 && row.0.1 < (NUMBER_LIMIT as u32)) {
                proof {
                    assert(!spec_row_ok(table@[i as int].0.0, table@[i as int].0.1));
                }
                return Err(EngineError::InvalidTableRange);
            }
            i = i + 1;
        }
        Ok(Table { edit: false, id, order_num, label, table })
    }

    /// Looks the outcome's base result up: scans rows in insertion order and
    /// renders the text of the last row whose inclusive range contains it —
    /// even an empty text — or the sentinel exactly when no row matches.
    pub fn roll_to_text(&self, roll: &Outcome) -> (r: String)
        ensures
            r@ == spec_roll_text(self.table@, roll.base_result as int),
    {
        let roll_result: i64 = roll.base_result as i64;
        let mut result = String::new();
        let mut matched = false;
        let mut i: usize = 0;
        proof {
            assert(self.table@.take(0) =~= Seq::<TableRow>::empty());
        }
        while i < self.table.len()
            invariant
                i <= self.table@.len(),
                matched == (spec_lookup(self.table@.take(i as int), roll_result as int) is Some),
                matched ==> Some(result@) == spec_lookup(
                    self.table@.take(i as int),
                    roll_result as int,
                ),
            decreases self.table@.len() - i,
        {
            let row = &self.table[i];
            proof {
                assert(self.table@.take(i + 1).drop_last() =~= self.table@.take(i as int));
                assert(self.table@.take(i + 1).last() == self.table@[i as int]);
            }
            if (row.0.0 as i64) <= roll_result && roll_result <= (row.0.1 as i64) {
                result = row.1.clone();
                matched = true;
            }
            i = i + 1;
        }
        proof {
            assert(self.table@.take(self.table@.len() as int) =~= self.table@);
        }
        if !matched {
            let sentinel = String::from_str("Roll failed to produce a value.");
            assert(sentinel@ == spec_no_result());
            return sentinel;
        }
        result
    }

    /// Appends a range whose lower bound is the upper bound of the most
    /// recently added row (zero for an empty table).  The requested upper
    /// bound is kept when it strictly exceeds that lower bound and stays
    /// under the numeric cap; otherwise the new range degenerates to a
    /// zero-width range at the previous boundary.
    pub fn add_row(&mut self, higher: u32, text: String)
        ensures
            final(self).table@ == old(self).table@.push(
                (
                    (spec_prev_upper(old(self).table@), spec_added_upper(old(self).table@, higher)),
                    text,
                ),
            ),
            spec_table_wf(old(self).table@) ==> spec_table_wf(final(self).table@),
            final(self).id == old(self).id,
            final(self).order_num == old(self).order_num,
            final(self).label == old(self).label,
            final(self).edit == old(self).edit,
    {
        let lower = if self.table.len() > 0 {
            self.table[self.table.len() - 1].0.1
        } else {
            0
        };
        let higher = if higher > lower && higher < (NUMBER_LIMIT as u32) {
            higher
        } else {
            lower
        };
        self.table.push(((lower, higher), text));
        proof {
            if spec_table_wf(old(self).table@) {
                assert forall|j: int| 0 <= j < self.table@.len() implies spec_row_ok(
                    #[trigger] self.table@[j].0.0,
                    self.table@[j].0.1,
                ) by {
                    if j < self.table@.len() - 1 {
                        assert(self.table@[j] == old(self).table@[j]);
                    } else {
                        if old(self).table@.len() > 0 {
                            assert(spec_row_ok(
                                old(self).table@.last().0.0,
                                old(self).table@.last().0.1,
                            ));
                        }
                    }
                }
            }
        }
    }

    /// Empties the table.
    pub fn clear_table(&mut self)
        ensures
            final(self).table@ == Seq::<TableRow>::empty(),
            final(self).id == old(self).id,
            final(self).order_num == old(self).order_num,
            final(self).label == old(self).label,
            final(self).edit == old(self).edit,
    {
        self.table.clear()
    }
}

} // verus!
