//! Rows of text fields under named columns, with equality lookups by scan or
//! through an index.
use vstd::prelude::*;

use crate::index::Index;

verus! {

/// A column: its name and a free-form type label.
#[derive(Debug)]
pub struct Column {
    pub name: String,
    pub dtype: String,
}

/// A named table: its columns and its rows, each row a sequence of text
/// fields, one per column. A row's position in `rows` is its identity.
#[derive(Debug)]
pub struct Table {
    pub name: String,
    pub columns: Vec<Column>,
    pub rows: Vec<Vec<String>>,
}

/// Why a table operation could not be carried out.
#[derive(Debug, PartialEq, Eq, Structural)]
pub enum TableError {
    /// No column of the table has the requested name.
    ColumnNotFound,
}

/// Whether some column is named `name`.
pub open spec fn has_column(cols: Seq<Column>, name: Seq<char>) -> bool {
    exists|i: int| 0 <= i < cols.len() && cols[i].name@ == name
}

/// Whether `i` is the position of the first column named `name`.
pub open spec fn is_first_column(cols: Seq<Column>, name: Seq<char>, i: int) -> bool {
    &&& 0 <= i < cols.len()
    &&& cols[i].name@ == name
    &&& forall|j: int| 0 <= j < i ==> cols[j].name@ != name
}

/// The position of the first column named `name`.
pub open spec fn column_index(cols: Seq<Column>, name: Seq<char>) -> int
    recommends
        has_column(cols, name),
{
    choose|i: int| is_first_column(cols, name, i)
}

/// The field of `row` at column position `pos`.
pub open spec fn field(row: Vec<String>, pos: int) -> Seq<char> {
    row@[pos]@
}

/// The positions, in ascending order, of the rows whose field at `pos` is `v`.
pub open spec fn matching_positions(rows: Seq<Vec<String>>, pos: int, v: Seq<char>) -> Seq<usize>
    decreases rows.len(),
{
    if rows.len() == 0 {
        seq![]
    } else {
        let earlier = matching_positions(rows.drop_last(), pos, v);
        if field(rows.last(), pos) == v {
            earlier.push((rows.len() - 1) as usize)
        } else {
            earlier
        }
    }
}

/// The index of column position `pos` over `rows`: each value that occurs
/// there maps to the positions of the rows that hold it.
pub open spec fn index_model(rows: Seq<Vec<String>>, pos: int) -> Map<Seq<char>, Seq<usize>> {
    Map::new(
        |v: Seq<char>| exists|i: int| 0 <= i < rows.len() && field(rows[i], pos) == v,
        |v: Seq<char>| matching_positions(rows, pos, v),
    )
}

/// The positions stored under `v`, none where `v` has no entry.
pub open spec fn lookup(m: Map<Seq<char>, Seq<usize>>, v: Seq<char>) -> Seq<usize> {
    if m.contains_key(v) {
        m[v]
    } else {
        seq![]
    }
}

/// Whether `found` holds, in order, the rows of `rows` at the positions `ps`.
pub open spec fn rows_at(rows: Seq<Vec<String>>, found: Seq<&Vec<String>>, ps: Seq<usize>) -> bool {
    &&& found.len() == ps.len()
    &&& forall|j: int| 0 <= j < ps.len() ==> #[trigger] ps[j] < rows.len()
    &&& forall|j: int| 0 <= j < ps.len() ==> *#[trigger] found[j] == rows[ps[j] as int]
}

/// Where no row holds `v` at `pos`, no position matches.
pub proof fn lemma_matching_none(rows: Seq<Vec<String>>, pos: int, v: Seq<char>)
    requires
        forall|i: int| 0 <= i < rows.len() ==> field(rows[i], pos) != v,
    ensures
        matching_positions(rows, pos, v) == Seq::<usize>::empty(),
    decreases rows.len(),
{
    if rows.len() > 0 {
        lemma_matching_none(rows.drop_last(), pos, v);
    }
}

/// Adding a row to the end adds its position under its own value.
proof fn lemma_index_model_step(rows: Seq<Vec<String>>, pos: int, n: int)
    requires
        0 <= n < rows.len(),
    ensures
        ({
            let m = index_model(rows.subrange(0, n), pos);
            let f = field(rows[n], pos);
            index_model(rows.subrange(0, n + 1), pos) == m.insert(
                f,
                if m.contains_key(f) {
                    m[f].push(n as usize)
                } else {
                    seq![n as usize]
                },
            )
        }),
{
    let pre = rows.subrange(0, n);
    let post = rows.subrange(0, n + 1);
    let f = field(rows[n], pos);
    let m = index_model(pre, pos);
    assert(post.drop_last() =~= pre);
    assert(post.last() == rows[n]);
    let target = m.insert(f, if m.contains_key(f) { m[f].push(n as usize) } else { seq![n as usize] });
    assert forall|v: Seq<char>| index_model(post, pos).contains_key(v) <==> target.contains_key(v) by {
        if target.contains_key(v) && v != f {
            let i = choose|i: int| 0 <= i < pre.len() && field(pre[i], pos) == v;
            assert(post[i] == pre[i]);
        }
        if index_model(post, pos).contains_key(v) && v != f {
            let i = choose|i: int| 0 <= i < post.len() && field(post[i], pos) == v;
            assert(i != n);
            assert(post[i] == pre[i]);
        }
        if v == f {
            assert(post[n] == rows[n]);
        }
    }
    assert forall|v: Seq<char>| #[trigger] index_model(post, pos).contains_key(v) implies
        index_model(post, pos)[v] == target[v] by {
        if v == f && !m.contains_key(f) {
            lemma_matching_none(pre, pos, f);
            assert(matching_positions(pre, pos, f).push(n as usize) =~= seq![n as usize]);
        }
    }
    assert(index_model(post, pos) =~= target);
}

impl Table {
    /// Every row has one field per column.
    pub open spec fn wf(&self) -> bool {
        forall|i: int| 0 <= i < self.rows@.len() ==> #[trigger] self.rows@[i]@.len() == self.columns@.len()
    }

    /// Appends `row`; its position is the former number of rows.
    pub fn insert(&mut self, row: Vec<String>)
        ensures
            final(self).rows@ == old(self).rows@.push(row),
            final(self).name == old(self).name,
            final(self).columns == old(self).columns,
            old(self).wf() && row@.len() == old(self).columns@.len() ==> final(self).wf(),
    {
        self.rows.push(row);
    }

    /// The position of the first column named `column_name`.
    fn column_position(&self, column_name: &str) -> (r: Option<usize>)
        ensures
            match r {
                Some(p) => has_column(self.columns@, column_name@) && is_first_column(
                    self.columns@,
                    column_name@,
                    p as int,
                ) && p == column_index(
                    self.columns@,
                    column_name@,
                ),
                None => !has_column(self.columns@, column_name@),
            },
    {
        let name = column_name.to_string();
        let mut i: usize = 0;
        while i < self.columns.len()
            invariant
                name@ == column_name@,
                i <= self.columns@.len(),
                forall|j: int| 0 <= j < i ==> self.columns@[j].name@ != column_name@,
            decreases self.columns@.len() - i,
        {
            if self.columns[i].name == name {
                proof {
                    assert(is_first_column(self.columns@, column_name@, i as int));
                    assert forall|q: int| is_first_column(self.columns@, column_name@, q) implies q
                        == i by {}
                }
                return Some(i);
            }
            i = i + 1;
        }
        None
    }

    /// The rows whose field in the column `column_name` equals `value`, in
    /// row order.
    pub fn select(&self, column_name: &str, value: &str) -> (r: Result<Vec<&Vec<String>>, TableError>)
        requires
            self.wf(),
        ensures
            match r {
                Ok(found) => has_column(self.columns@, column_name@) && rows_at(
                    self.rows@,
                    found@,
                    matching_positions(
                        self.rows@,
                        column_index(self.columns@, column_name@),
                        value@,
                    ),
                ),
                Err(e) => !has_column(self.columns@, column_name@) && e == TableError::ColumnNotFound,
            },
    {
        let pos = match self.column_position(column_name) {
            Some(p) => p,
            None => {
                return Err(TableError::ColumnNotFound);
            },
        };
        let v = value.to_string();
        let mut found: Vec<&Vec<String>> = Vec::new();
        let mut i: usize = 0;
        while i < self.rows.len()
            invariant
                self.wf(),
                pos < self.columns@.len(),
                v@ == value@,
                i <= self.rows@.len(),
                rows_at(
                    self.rows@,
                    found@,
                    matching_positions(self.rows@.subrange(0, i as int), pos as int, value@),
                ),
            decreases self.rows@.len() - i,
        {
            let ghost pre = self.rows@.subrange(0, i as int);
            let ghost post = self.rows@.subrange(0, i as int + 1);
            proof {
                assert(post.drop_last() =~= pre);
                assert(post.last() == self.rows@[i as int]);
            }
            let row = &self.rows[i];
            assert(row@.len() == self.columns@.len());
            if row[pos] == v {
                found.push(row);
            }
            i = i + 1;
        }
        proof {
            assert(self.rows@.subrange(0, self.rows@.len() as int) =~= self.rows@);
        }
        Ok(found)
    }

    /// An index of the column `column_name` over the current rows.
    pub fn create_index(&self, column_name: &str) -> (r: Result<Index, TableError>)
        requires
            self.wf(),
        ensures
            match r {
                Ok(ix) => has_column(self.columns@, column_name@) && ix.column_name@
                    == column_name@ && ix.index@ == index_model(
                    self.rows@,
                    column_index(self.columns@, column_name@),
                ),
                Err(e) => !has_column(self.columns@, column_name@) && e == TableError::ColumnNotFound,
            },
    {
        let pos = match self.column_position(column_name) {
            Some(p) => p,
            None => {
                return Err(TableError::ColumnNotFound);
            },
        };
        let mut index = Index::new(column_name);
        proof {
            assert(index_model(self.rows@.subrange(0, 0), pos as int) =~= Map::empty());
        }
        let mut i: usize = 0;
        while i < self.rows.len()
            invariant
                self.wf(),
                pos < self.columns@.len(),
                i <= self.rows@.len(),
                index.column_name@ == column_name@,
                index.index@ == index_model(self.rows@.subrange(0, i as int), pos as int),
            decreases self.rows@.len() - i,
        {
            proof {
                lemma_index_model_step(self.rows@, pos as int, i as int);
            }
            let row = &self.rows[i];
            assert(row@.len() == self.columns@.len());
            index.add_entry(&row[pos], i);
            i = i + 1;
        }
        proof {
            assert(self.rows@.subrange(0, self.rows@.len() as int) =~= self.rows@);
        }
        Ok(index)
    }

    /// The rows at the positions that `index` stores under `value`, in the
    /// order stored; none where `value` has no entry.
    pub fn select_with_index(&self, index: &Index, value: &str) -> (r: Vec<&Vec<String>>)
        requires
            forall|j: int|
                0 <= j < lookup(index.index@, value@).len() ==> lookup(index.index@, value@)[j]
                    < self.rows@.len(),
        ensures
            rows_at(self.rows@, r@, lookup(index.index@, value@)),
    {
        let mut found: Vec<&Vec<String>> = Vec::new();
        match index.index.get(value) {
            Some(ps) => {
                assert forall|j: int| 0 <= j < ps@.len() implies ps@[j] < self.rows@.len() by {
                    assert(ps@[j] == lookup(index.index@, value@)[j]);
                }
                let mut k: usize = 0;
                while k < ps.len()
                    invariant
                        ps@ == lookup(index.index@, value@),
                        forall|j: int| 0 <= j < ps@.len() ==> ps@[j] < self.rows@.len(),
                        k <= ps@.len(),
                        rows_at(self.rows@, found@, ps@.subrange(0, k as int)),
                    decreases ps@.len() - k,
                {
                    found.push(&self.rows[ps[k]]);
                    k = k + 1;
                }
                proof {
                    assert(ps@.subrange(0, ps@.len() as int) =~= ps@);
                }
            },
            None => {
                assert(lookup(index.index@, value@) =~= Seq::<usize>::empty());
            },
        }
        found
    }
}

/// What the matching positions are: ascending positions of rows that hold
/// `v` at `pos`, and every such row among them.
pub proof fn lemma_matching_positions_exact(rows: Seq<Vec<String>>, pos: int, v: Seq<char>)
    requires
        rows.len() <= usize::MAX,
    ensures
        ({
            let ps = matching_positions(rows, pos, v);
            &&& forall|k: int|
                0 <= k < ps.len() ==> #[trigger] ps[k] < rows.len() && field(rows[ps[k] as int], pos)
                    == v
            &&& forall|a: int, b: int| 0 <= a < b < ps.len() ==> #[trigger] ps[a] < #[trigger] ps[b]
            &&& forall|i: int|
                0 <= i < rows.len() && #[trigger] field(rows[i], pos) == v ==> ps.contains(
                    i as usize,
                )
        }),
    decreases rows.len(),
{
    if rows.len() > 0 {
        let pre = rows.drop_last();
        lemma_matching_positions_exact(pre, pos, v);
        let ps0 = matching_positions(pre, pos, v);
        let ps = matching_positions(rows, pos, v);
        let n = rows.len() - 1;
        assert forall|k: int| 0 <= k < ps0.len() implies #[trigger] ps0[k] < n && field(
            rows[ps0[k] as int],
            pos,
        ) == v by {
            assert(rows[ps0[k] as int] == pre[ps0[k] as int]);
        }
        assert forall|i: int|
            0 <= i < rows.len() && #[trigger] field(rows[i], pos) == v implies ps.contains(
            i as usize,
        ) by {
            if i < n {
                assert(rows[i] == pre[i]);
                let k = choose|k: int| 0 <= k < ps0.len() && ps0[k] == i as usize;
                assert(ps[k] == ps0[k]);
            } else {
                assert(ps[ps.len() - 1] == i as usize);
            }
        }
    }
}

/// An index built on a column holds as keys exactly the values that occur in
/// that column, and under each value the positions, in ascending order, of
/// exactly the rows that hold it there.
pub proof fn lemma_index_exact(t: Table, c: Seq<char>)
    requires
        has_column(t.columns@, c),
        t.rows@.len() <= usize::MAX,
    ensures
        ({
            let p = column_index(t.columns@, c);
            let m = index_model(t.rows@, p);
            &&& forall|v: Seq<char>|
                #[trigger] m.contains_key(v) <==> exists|i: int|
                    0 <= i < t.rows@.len() && field(t.rows@[i], p) == v
            &&& forall|v: Seq<char>, k: int|
                m.contains_key(v) && 0 <= k < m[v].len() ==> #[trigger] m[v][k] < t.rows@.len()
                    && field(t.rows@[m[v][k] as int], p) == v
            &&& forall|v: Seq<char>, a: int, b: int|
                m.contains_key(v) && 0 <= a < b < m[v].len() ==> #[trigger] m[v][a]
                    < #[trigger] m[v][b]
            &&& forall|i: int|
                0 <= i < t.rows@.len() ==> #[trigger] m[field(t.rows@[i], p)].contains(i as usize)
        }),
{
    let p = column_index(t.columns@, c);
    let m = index_model(t.rows@, p);
    assert forall|v: Seq<char>| #[trigger] m.contains_key(v) implies {
        &&& forall|k: int|
            0 <= k < m[v].len() ==> #[trigger] m[v][k] < t.rows@.len() && field(
                t.rows@[m[v][k] as int],
                p,
            ) == v
        &&& forall|a: int, b: int| 0 <= a < b < m[v].len() ==> #[trigger] m[v][a] < #[trigger] m[v][b]
    } by {
        lemma_matching_positions_exact(t.rows@, p, v);
    }
    assert forall|i: int| 0 <= i < t.rows@.len() implies #[trigger] m[field(
        t.rows@[i],
        p,
    )].contains(i as usize) by {
        lemma_matching_positions_exact(t.rows@, p, field(t.rows@[i], p));
    }
}

/// Looking a value up through an index of a column gives the same positions
/// as scanning that column, so `select_with_index` on a fresh index returns
/// the same rows, in the same order, as `select`.
pub proof fn lemma_index_agrees_with_scan(t: Table, c: Seq<char>, v: Seq<char>)
    requires
        has_column(t.columns@, c),
    ensures
        ({
            let p = column_index(t.columns@, c);
            &&& lookup(index_model(t.rows@, p), v) == matching_positions(t.rows@, p, v)
            &&& forall|by_index: Seq<&Vec<String>>, by_scan: Seq<&Vec<String>>|
                rows_at(t.rows@, by_index, lookup(index_model(t.rows@, p), v)) && rows_at(
                    t.rows@,
                    by_scan,
                    matching_positions(t.rows@, p, v),
                ) ==> by_index == by_scan
        }),
{
    let p = column_index(t.columns@, c);
    let m = index_model(t.rows@, p);
    if !m.contains_key(v) {
        lemma_matching_none(t.rows@, p, v);
    }
    assert forall|by_index: Seq<&Vec<String>>, by_scan: Seq<&Vec<String>>|
        rows_at(t.rows@, by_index, lookup(m, v)) && rows_at(
            t.rows@,
            by_scan,
            matching_positions(t.rows@, p, v),
        ) implies by_index == by_scan by {
        assert forall|j: int| 0 <= j < by_index.len() implies by_index[j] == by_scan[j] by {
            assert(*by_index[j] == t.rows@[lookup(m, v)[j] as int]);
            assert(*by_scan[j] == t.rows@[matching_positions(t.rows@, p, v)[j] as int]);
        }
        assert(by_index =~= by_scan);
    }
}

/// A value that no row holds in a column selects no rows, by scan or through
/// an index of that column.
pub proof fn lemma_absent_value_selects_nothing(t: Table, c: Seq<char>, v: Seq<char>)
    requires
        has_column(t.columns@, c),
        forall|i: int|
            0 <= i < t.rows@.len() ==> field(t.rows@[i], column_index(t.columns@, c)) != v,
    ensures
        matching_positions(t.rows@, column_index(t.columns@, c), v).len() == 0,
        lookup(index_model(t.rows@, column_index(t.columns@, c)), v).len() == 0,
{
    lemma_matching_none(t.rows@, column_index(t.columns@, c), v);
}

/// An index built over a table without rows maps nothing.
pub proof fn lemma_empty_table_empty_index(t: Table, c: Seq<char>)
    requires
        t.rows@.len() == 0,
    ensures
        index_model(t.rows@, column_index(t.columns@, c)) == Map::<Seq<char>, Seq<usize>>::empty(),
{
    assert(index_model(t.rows@, column_index(t.columns@, c)) =~= Map::<
        Seq<char>,
        Seq<usize>,
    >::empty());
}

} // verus!
