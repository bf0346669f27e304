use vstd::prelude::*;
use crate::value::{CellV, CellValue, DType, cell_fits, cell_fits_exec};

verus! {

/// A named, typed column of nullable cells.
pub struct Column {
    pub name: String,
    pub dtype: DType,
    pub values: Vec<CellValue>,
}

/// Model of a column.
pub struct ColumnV {
    pub name: Seq<char>,
    pub dtype: DType,
    pub values: Seq<CellV>,
}

impl View for Column {
    type V = ColumnV;

    open spec fn view(&self) -> ColumnV {
        ColumnV {
            name: self.name@,
            dtype: self.dtype,
            values: Seq::new(self.values@.len(), |i: int| self.values@[i]@),
        }
    }
}

/// A table: an ordered sequence of columns that all share one row count.
pub struct Table {
    pub columns: Vec<Column>,
}

impl View for Table {
    type V = Seq<ColumnV>;

    open spec fn view(&self) -> Seq<ColumnV> {
        Seq::new(self.columns@.len(), |i: int| self.columns@[i]@)
    }
}

/// Row count of a table model: the length of its first column, zero for a
/// table without columns.
pub open spec fn spec_height(t: Seq<ColumnV>) -> nat {
    if t.len() == 0 {
        0
    } else {
        t[0].values.len()
    }
}

/// Every column holds exactly one cell per row.
pub open spec fn cols_len_ok(t: Seq<ColumnV>) -> bool {
    forall|c: int| 0 <= c < t.len() ==> (#[trigger] t[c].values.len()) == spec_height(t)
}

/// No two columns share a name.
pub open spec fn names_unique(t: Seq<ColumnV>) -> bool {
    forall|c1: int, c2: int|
        0 <= c1 < t.len() && 0 <= c2 < t.len() && c1 != c2 ==> (#[trigger] t[c1].name)
            != (#[trigger] t[c2].name)
}

/// Every cell conforms to its column's declared type.
pub open spec fn cells_fit(t: Seq<ColumnV>) -> bool {
    forall|c: int, r: int|
        0 <= c < t.len() && 0 <= r < t[c].values.len() ==> #[trigger] cell_fits(
            t[c].values[r],
            t[c].dtype,
        )
}

/// Well-formedness of a table model.
pub open spec fn table_wf(t: Seq<ColumnV>) -> bool {
    &&& cols_len_ok(t)
    &&& names_unique(t)
    &&& cells_fit(t)
}

/// Is some column of `t` named `name`?
pub open spec fn has_col(t: Seq<ColumnV>, name: Seq<char>) -> bool {
    exists|i: int| 0 <= i < t.len() && (#[trigger] t[i].name) == name
}

/// Index of the column named `name` (meaningful only when `has_col` holds;
/// unique in a well-formed table).
pub open spec fn col_of(t: Seq<ColumnV>, name: Seq<char>) -> int {
    choose|i: int| 0 <= i < t.len() && (#[trigger] t[i].name) == name
}

/// In a well-formed table a name determines its column.
pub proof fn lemma_col_of_unique(t: Seq<ColumnV>, name: Seq<char>, i: int)
    requires
        names_unique(t),
        0 <= i < t.len(),
        t[i].name == name,
    ensures
        has_col(t, name),
        col_of(t, name) == i,
{
    assert(has_col(t, name));
    let j = col_of(t, name);
    assert(0 <= j < t.len() && t[j].name == name);
    if i != j {
        assert(t[i].name != t[j].name);
    }
}

impl Table {
    /// Number of rows.
    pub fn height(&self) -> (r: usize)
        ensures
            r == spec_height(self@),
    {
        if self.columns.len() == 0 {
            0
        } else {
            self.columns[0].values.len()
        }
    }

    /// Index of the column named `name`, if any; the smallest such index.
    pub fn find_column(&self, name: &String) -> (r: Option<usize>)
        ensures
            match r {
                Some(i) => i < self.columns.len() && self@[i as int].name == name@ && has_col(
                    self@,
                    name@,
                ),
                None => !has_col(self@, name@),
            },
    {
        let n = self.columns.len();
        for c in 0..n
            invariant
                n == self.columns.len(),
                forall|j: int| 0 <= j < c ==> (#[trigger] self@[j].name) != name@,
        {
            if self.columns[c].name.eq(name) {
                assert(self@[c as int].name == name@);
                return Some(c);
            }
        }
        None
    }

    /// Runtime well-formedness check, for callers that assemble a table from
    /// unverified input.
    pub fn is_wf(&self) -> (r: bool)
        ensures
            r == table_wf(self@),
    {
        let n = self.columns.len();
        let h = self.height();
        for c in 0..n
            invariant
                n == self.columns.len(),
                h == spec_height(self@),
                forall|cc: int| 0 <= cc < c ==> (#[trigger] self@[cc].values.len()) == h,
                forall|cc: int, rr: int|
                    0 <= cc < c && 0 <= rr < self@[cc].values.len() ==> #[trigger] cell_fits(
                        self@[cc].values[rr],
                        self@[cc].dtype,
                    ),
        {
            let col = &self.columns[c];
            if col.values.len() != h {
                assert(!cols_len_ok(self@)) by {
                    assert(self@[c as int].values.len() != spec_height(self@));
                }
                return false;
            }
            let m = col.values.len();
            for r in 0..m
                invariant
                    m == col.values.len(),
                    col == self.columns@[c as int],
                    c < self.columns.len(),
                    forall|rr: int| 0 <= rr < r ==> #[trigger] cell_fits(col@.values[rr], col@.dtype),
            {
                if !cell_fits_exec(&col.values[r], col.dtype) {
                    assert(!cells_fit(self@)) by {
                        assert(!cell_fits(self@[c as int].values[r as int], self@[c as int].dtype));
                    }
                    return false;
                }
            }
            assert(forall|rr: int|
                0 <= rr < self@[c as int].values.len() ==> #[trigger] cell_fits(
                    self@[c as int].values[rr],
                    self@[c as int].dtype,
                ));
        }
        for c1 in 0..n
            invariant
                n == self.columns.len(),
                cols_len_ok(self@),
                cells_fit(self@),
                forall|a: int, b: int|
                    0 <= a < c1 && 0 <= b < n && a != b ==> (#[trigger] self@[a].name)
                        != (#[trigger] self@[b].name),
        {
            for c2 in 0..n
                invariant
                    n == self.columns.len(),
                    c1 < n,
                    forall|a: int, b: int|
                        0 <= a < c1 && 0 <= b < n && a != b ==> (#[trigger] self@[a].name)
                            != (#[trigger] self@[b].name),
                    forall|b: int|
                        0 <= b < c2 && b != c1 ==> (#[trigger] self@[b].name) != self@[
                            c1 as int
                        ].name,
            {
                if c2 != c1 && self.columns[c1].name.eq(&self.columns[c2].name) {
                    assert(!names_unique(self@)) by {
                        assert(self@[c1 as int].name == self@[c2 as int].name);
                    }
                    return false;
                }
            }
        }
        true
    }
}

} // verus!
