//! A secondary index on one column of a table.
use vstd::prelude::*;

use crate::position_map::PositionMap;

verus! {

/// The name of the indexed column, and for each of its values the positions
/// of the rows that hold it.
pub struct Index {
    pub column_name: String,
    pub index: PositionMap,
}

impl Index {
    /// An empty index for the column `column_name`.
    pub fn new(column_name: &str) -> (r: Self)
        ensures
            r.column_name@ == column_name@,
            r.index@ == Map::<Seq<char>, Seq<usize>>::empty(),
    {
        Index { column_name: column_name.to_string(), index: PositionMap::new() }
    }

    /// Records that the row at `row_index` holds `value`: the position goes
    /// after those already stored under `value`.
    pub fn add_entry(&mut self, value: &str, row_index: usize)
        ensures
            final(self).column_name@ == old(self).column_name@,
            final(self).index@ == old(self).index@.insert(
                value@,
                if old(self).index@.contains_key(value@) {
                    old(self).index@[value@].push(row_index)
                } else {
                    seq![row_index]
                },
            ),
    {
        self.index.append(value, row_index);
    }
}

/// Two indexes are equal when they name the same column and map the same
/// values to the same positions, in the same order.
impl PartialEq for Index {
    fn eq(&self, other: &Index) -> (r: bool) {
        self.column_name == other.column_name && self.index.same_as(&other.index)
    }
}

impl vstd::std_specs::cmp::PartialEqSpecImpl for Index {
    open spec fn obeys_eq_spec() -> bool {
        true
    }

    open spec fn eq_spec(&self, other: &Index) -> bool {
        self.column_name@ == other.column_name@ && self.index@ == other.index@
    }
}

} // verus!
