use vstd::prelude::*;

use crate::error::DataError;

verus! {

/// A column as the contracts see it: its name, then its cells from top to bottom.
pub type ColumnView = (Seq<char>, Seq<u64>);

/// The character sequences of a list of strings.
pub open spec fn string_views(v: Seq<String>) -> Seq<Seq<char>> {
    v.map_values(|s: String| s@)
}

/// The column names of a table, left to right.
pub open spec fn names_of(cols: Seq<ColumnView>) -> Seq<Seq<char>> {
    cols.map_values(|c: ColumnView| c.0)
}

/// The number of rows: the length of the first column, zero without columns.
pub open spec fn row_count_of(cols: Seq<ColumnView>) -> nat {
    if cols.len() == 0 {
        0
    } else {
        cols[0].1.len()
    }
}

/// Column names are unique and every column holds one cell per row.
pub open spec fn table_wf(cols: Seq<ColumnView>) -> bool {
    &&& names_of(cols).no_duplicates()
    &&& forall|j: int| 0 <= j < cols.len() ==> #[trigger] cols[j].1.len() == row_count_of(cols)
}

/// Some column of `cols` is called `name`.
pub open spec fn has_column(cols: Seq<ColumnView>, name: Seq<char>) -> bool {
    exists|j: int| 0 <= j < cols.len() && #[trigger] cols[j].0 == name
}

/// The position of the column called `name` (meaningful where it exists).
pub open spec fn column_index(cols: Seq<ColumnView>, name: Seq<char>) -> int {
    choose|j: int| 0 <= j < cols.len() && #[trigger] cols[j].0 == name
}

/// The columns called `names`, in the order of `names`.
pub open spec fn select_spec(cols: Seq<ColumnView>, names: Seq<Seq<char>>) -> Seq<ColumnView> {
    names.map_values(|n: Seq<char>| cols[column_index(cols, n)])
}

/// Every column reduced to the rows at `idx`, in the order of `idx`.
pub open spec fn take_rows_spec(cols: Seq<ColumnView>, idx: Seq<usize>) -> Seq<ColumnView> {
    cols.map_values(|c: ColumnView| (c.0, idx.map_values(|i: usize| c.1[i as int])))
}

/// A named column of cells; each cell is the bit pattern of a 64-bit float.
pub struct Column {
    pub name: String,
    pub values: Vec<u64>,
}

impl View for Column {
    type V = ColumnView;

    open spec fn view(&self) -> ColumnView {
        (self.name@, self.values@)
    }
}

impl Column {
    /// A copy of this column.
    pub fn duplicate(&self) -> (r: Column)
        ensures
            r@ == self@,
    {
        let values = self.values.clone();
        assert(values@ =~= self.values@);
        Column { name: self.name.clone(), values }
    }
}

/// An immutable table: uniquely named columns of equal length.
pub struct Table {
    columns: Vec<Column>,
}

impl View for Table {
    type V = Seq<ColumnView>;

    closed spec fn view(&self) -> Seq<ColumnView> {
        self.columns@.map_values(|c: Column| c@)
    }
}

impl Table {
    #[verifier::type_invariant]
    spec fn inv(&self) -> bool {
        table_wf(self@)
    }

    /// Builds a table from its columns, left to right.
    ///
    /// Fails with `DuplicateColumn` when a name occurs twice, else with
    /// `RaggedColumns` when the columns differ in length.
    pub fn new(columns: Vec<Column>) -> (r: Result<Table, DataError>)
        ensures
            match r {
                Ok(t) => t@ == columns@.map_values(|c: Column| c@),
                Err(DataError::DuplicateColumn(n)) => !names_of(
                    columns@.map_values(|c: Column| c@),
                ).no_duplicates() && exists|i: int, j: int|
                    0 <= i < j < columns@.len() && columns@[i].name@ == n@ && columns@[j].name@
                        == n@,
                Err(DataError::RaggedColumns) => names_of(
                    columns@.map_values(|c: Column| c@),
                ).no_duplicates() && !table_wf(columns@.map_values(|c: Column| c@)),
                Err(_) => false,
            },
            r is Ok <==> table_wf(columns@.map_values(|c: Column| c@)),
    {
        let ghost cols = columns@.map_values(|c: Column| c@);
        let n = columns.len();
        let mut j: usize = 0;
        while j < n
            invariant
                n == columns@.len(),
                cols == columns@.map_values(|c: Column| c@),
                0 <= j <= n,
                forall|a: int, b: int| 0 <= a < b < j ==> columns@[a].name@ != columns@[b].name@,
            decreases n - j,
        {
            let mut k: usize = 0;
            while k < j
                invariant
                    n == columns@.len(),
                    cols == columns@.map_values(|c: Column| c@),
                    0 <= k <= j < n,
                    forall|a: int| 0 <= a < k ==> columns@[a].name@ != columns@[j as int].name@,
                decreases j - k,
            {
                if columns[k].name == columns[j].name {
                    let name = columns[j].name.clone();
                    proof {
                        assert(names_of(cols)[k as int] == names_of(cols)[j as int]);
                    }
                    return Err(DataError::DuplicateColumn(name));
                }
                k = k + 1;
            }
            j = j + 1;
        }
        assert(names_of(cols).no_duplicates()) by {
            assert forall|a: int, b: int|
                0 <= a < names_of(cols).len() && 0 <= b < names_of(cols).len() && a != b implies
                names_of(cols)[a] != names_of(cols)[b] by {
                if a < b {
                    assert(columns@[a].name@ != columns@[b].name@);
                } else {
                    assert(columns@[b].name@ != columns@[a].name@);
                }
            }
        }
        if n > 0 {
            let rows = columns[0].values.len();
            let mut j: usize = 0;
            while j < n
                invariant
                    n == columns@.len(),
                    n > 0,
                    cols == columns@.map_values(|c: Column| c@),
                    rows == row_count_of(cols),
                    names_of(cols).no_duplicates(),
                    0 <= j <= n,
                    forall|a: int| 0 <= a < j ==> #[trigger] cols[a].1.len() == rows,
                decreases n - j,
            {
                if columns[j].values.len() != rows {
                    assert(cols[j as int].1.len() != row_count_of(cols));
                    return Err(DataError::RaggedColumns);
                }
                j = j + 1;
            }
        }
        Ok(Table { columns })
    }

    /// The number of rows.
    pub fn row_count(&self) -> (r: usize)
        ensures
            r == row_count_of(self@),
    {
        if self.columns.len() == 0 {
            0
        } else {
            self.columns[0].values.len()
        }
    }

    /// The number of columns.
    pub fn column_count(&self) -> (r: usize)
        ensures
            r == self@.len(),
    {
        self.columns.len()
    }

    /// The cell in row `row` of column `col`.
    pub fn cell(&self, row: usize, col: usize) -> (r: u64)
        requires
            row < row_count_of(self@),
            col < self@.len(),
        ensures
            r == self@[col as int].1[row as int],
    {
        proof {
            use_type_invariant(self);
        }
        assert(self@[col as int] == self.columns@[col as int]@);
        assert(self@[col as int].1.len() == row_count_of(self@));
        self.columns[col].values[row]
    }

    /// The cells of column `col`, top to bottom.
    pub fn column_values(&self, col: usize) -> (r: Vec<u64>)
        requires
            col < self@.len(),
        ensures
            r@ == self@[col as int].1,
    {
        assert(self@[col as int] == self.columns@[col as int]@);
        let r = self.columns[col].values.clone();
        assert(r@ =~= self@[col as int].1);
        r
    }

    /// The column names, left to right.
    pub fn column_names(&self) -> (r: Vec<String>)
        ensures
            string_views(r@) == names_of(self@),
    {
        let mut r: Vec<String> = Vec::new();
        let mut j: usize = 0;
        while j < self.columns.len()
            invariant
                0 <= j <= self.columns@.len(),
                r@.len() == j,
                string_views(r@) == names_of(self@).take(j as int),
            decreases self.columns@.len() - j,
        {
            let ghost before = r@;
            let name = self.columns[j].name.clone();
            r.push(name);
            assert(r@ == before.push(name));
            assert(string_views(r@) =~= names_of(self@).take(j + 1)) by {
                assert(string_views(before) =~= names_of(self@).take(j as int));
                assert(self@[j as int] == self.columns@[j as int]@);
                assert(names_of(self@)[j as int] == name@);
                assert forall|i: int| 0 <= i < j + 1 implies #[trigger] string_views(r@)[i]
                    == names_of(self@).take(j + 1)[i] by {
                    if i < j {
                        assert(string_views(before)[i] == names_of(self@).take(
                            j as int,
                        )[i]);
                    }
                }
            }
            j = j + 1;
        }
        assert(names_of(self@).take(j as int) =~= names_of(self@));
        r
    }

    /// The position of the column called `name`, if there is one.
    pub fn find_column(&self, name: &String) -> (r: Option<usize>)
        ensures
            match r {
                Some(j) => j < self@.len() && self@[j as int].0 == name@ && j == column_index(
                    self@,
                    name@,
                ),
                None => !has_column(self@, name@),
            },
    {
        proof {
            use_type_invariant(self);
        }
        let mut j: usize = 0;
        while j < self.columns.len()
            invariant
                0 <= j <= self.columns@.len(),
                self@.len() == self.columns@.len(),
                table_wf(self@),
                forall|a: int| 0 <= a < j ==> #[trigger] self@[a].0 != name@,
            decreases self.columns@.len() - j,
        {
            if self.columns[j].name == *name {
                proof {
                    lemma_column_index_unique(self@, j as int);
                }
                return Some(j);
            }
            j = j + 1;
        }
        None
    }

    /// Keeps the rows at the positions `idx`, in that order, in every column.
    pub fn take_rows(&self, idx: &Vec<usize>) -> (r: Table)
        requires
            forall|k: int| 0 <= k < idx@.len() ==> #[trigger] idx@[k] < row_count_of(self@),
        ensures
            r@ == take_rows_spec(self@, idx@),
    {
        proof {
            use_type_invariant(self);
        }
        let mut columns: Vec<Column> = Vec::new();
        let mut j: usize = 0;
        while j < self.columns.len()
            invariant
                0 <= j <= self.columns@.len(),
                self@.len() == self.columns@.len(),
                table_wf(self@),
                forall|k: int| 0 <= k < idx@.len() ==> #[trigger] idx@[k] < row_count_of(self@),
                columns@.len() == j,
                forall|a: int| 0 <= a < j ==> #[trigger] columns@[a]@ == take_rows_spec(self@, idx@)[a],
            decreases self.columns@.len() - j,
        {
            assert(self@[j as int] == self.columns@[j as int]@);
            assert(self@[j as int].1.len() == row_count_of(self@));
            let values = gather(&self.columns[j].values, idx);
            let column = Column { name: self.columns[j].name.clone(), values };
            columns.push(column);
            j = j + 1;
        }
        let ghost view = columns@.map_values(|c: Column| c@);
        assert(view =~= take_rows_spec(self@, idx@));
        proof {
            lemma_take_rows_wf(self@, idx@);
        }
        Table { columns }
    }

    /// The columns called `names`, in that order.
    ///
    /// Fails with `DuplicateColumn` when `names` repeats a name, else with
    /// `MissingColumn` naming the first of `names` that the table lacks.
    pub fn select(&self, names: &Vec<String>) -> (r: Result<Table, DataError>)
        ensures
            match r {
                Ok(t) => t@ == select_spec(self@, string_views(names@)),
                Err(DataError::DuplicateColumn(n)) => !string_views(names@).no_duplicates()
                    && string_views(names@).contains(n@),
                Err(DataError::MissingColumn(n)) => string_views(names@).no_duplicates()
                    && missing_first(self@, string_views(names@), n@),
                Err(_) => false,
            },
            r is Ok <==> string_views(names@).no_duplicates() && all_present(
                self@,
                string_views(names@),
            ),
    {
        proof {
            use_type_invariant(self);
        }
        let ghost wanted = string_views(names@);
        let n = names.len();
        let mut j: usize = 0;
        while j < n
            invariant
                n == names@.len(),
                wanted == string_views(names@),
                0 <= j <= n,
                forall|a: int, b: int| 0 <= a < b < j ==> wanted[a] != wanted[b],
            decreases n - j,
        {
            let mut k: usize = 0;
            while k < j
                invariant
                    n == names@.len(),
                    wanted == string_views(names@),
                    0 <= k <= j < n,
                    forall|a: int| 0 <= a < k ==> wanted[a] != wanted[j as int],
                decreases j - k,
            {
                if names[k] == names[j] {
                    assert(wanted[k as int] == wanted[j as int]);
                    return Err(DataError::DuplicateColumn(names[j].clone()));
                }
                k = k + 1;
            }
            j = j + 1;
        }
        assert(wanted.no_duplicates()) by {
            assert forall|a: int, b: int|
                0 <= a < wanted.len() && 0 <= b < wanted.len() && a != b implies wanted[a]
                != wanted[b] by {
                if b < a {
                    assert(wanted[b] != wanted[a]);
                }
            }
        }
        let mut columns: Vec<Column> = Vec::new();
        let mut j: usize = 0;
        while j < n
            invariant
                n == names@.len(),
                wanted == string_views(names@),
                wanted.no_duplicates(),
                table_wf(self@),
                self@.len() == self.columns@.len(),
                0 <= j <= n,
                columns@.len() == j,
                forall|a: int| 0 <= a < j ==> #[trigger] has_column(self@, wanted[a]),
                forall|a: int|
                    0 <= a < j ==> #[trigger] columns@[a]@ == select_spec(self@, wanted)[a],
            decreases n - j,
        {
            match self.find_column(&names[j]) {
                Some(c) => {
                    columns.push(self.columns[c].duplicate());
                },
                None => {
                    assert(all_present(self@, wanted.take(j as int))) by {
                        assert forall|a: int| 0 <= a < j implies #[trigger] has_column(
                            self@,
                            wanted.take(j as int)[a],
                        ) by {
                            assert(wanted.take(j as int)[a] == wanted[a]);
                        }
                    }
                    assert(names[j as int]@ == wanted[j as int]);
                    assert(missing_first(self@, wanted, wanted[j as int]));
                    return Err(DataError::MissingColumn(names[j].clone()));
                },
            }
            j = j + 1;
        }
        let ghost view = columns@.map_values(|c: Column| c@);
        assert(view =~= select_spec(self@, wanted));
        proof {
            lemma_select_wf(self@, wanted);
        }
        Ok(Table { columns })
    }

    /// The columns of `self` followed by those of `other`, side by side.
    ///
    /// Fails with `RowCountMismatch` when the row counts differ, else with
    /// `DuplicateColumn` naming a column that both tables hold.
    pub fn join(&self, other: &Table) -> (r: Result<Table, DataError>)
        ensures
            match r {
                Ok(t) => t@ == self@ + other@,
                Err(DataError::RowCountMismatch) => row_count_of(self@) != row_count_of(other@),
                Err(DataError::DuplicateColumn(n)) => row_count_of(self@) == row_count_of(
                    other@,
                ) && has_column(self@, n@) && has_column(other@, n@),
                Err(_) => false,
            },
            r is Ok <==> row_count_of(self@) == row_count_of(other@) && forall|n: Seq<char>|
                !(#[trigger] has_column(self@, n) && has_column(other@, n)),
    {
        proof {
            use_type_invariant(self);
            use_type_invariant(other);
        }
        if self.row_count() != other.row_count() {
            return Err(DataError::RowCountMismatch);
        }
        let mut columns: Vec<Column> = Vec::new();
        let mut j: usize = 0;
        while j < self.columns.len()
            invariant
                0 <= j <= self.columns@.len(),
                self@.len() == self.columns@.len(),
                columns@.len() == j,
                forall|a: int| 0 <= a < j ==> #[trigger] columns@[a]@ == self@[a],
            decreases self.columns@.len() - j,
        {
            columns.push(self.columns[j].duplicate());
            j = j + 1;
        }
        let mut k: usize = 0;
        while k < other.columns.len()
            invariant
                0 <= k <= other.columns@.len(),
                self@.len() == self.columns@.len(),
                other@.len() == other.columns@.len(),
                row_count_of(self@) == row_count_of(other@),
                table_wf(self@),
                table_wf(other@),
                columns@.len() == self@.len() + k,
                forall|a: int|
                    0 <= a < self@.len() + k ==> #[trigger] columns@[a]@ == (self@ + other@)[a],
                forall|a: int| 0 <= a < k ==> !has_column(self@, #[trigger] other@[a].0),
            decreases other.columns@.len() - k,
        {
            if let Some(c) = self.find_column(&other.columns[k].name) {
                assert(other@[k as int] == other.columns@[k as int]@);
                assert(has_column(other@, other@[k as int].0));
                assert(has_column(self@, other@[k as int].0));
                let name = other.columns[k].name.clone();
                assert(name@ == other@[k as int].0);
                return Err(DataError::DuplicateColumn(name));
            }
            columns.push(other.columns[k].duplicate());
            k = k + 1;
        }
        let ghost view = columns@.map_values(|c: Column| c@);
        assert(view =~= self@ + other@);
        proof {
            lemma_join_wf(self@, other@);
        }
        Ok(Table { columns })
    }
}

/// Every name of `names` is a column of `cols`.
pub open spec fn all_present(cols: Seq<ColumnView>, names: Seq<Seq<char>>) -> bool {
    forall|k: int| 0 <= k < names.len() ==> #[trigger] has_column(cols, names[k])
}

/// `n` is the first of `names` that `cols` lacks.
pub open spec fn missing_first(cols: Seq<ColumnView>, names: Seq<Seq<char>>, n: Seq<char>) -> bool {
    exists|k: int|
        0 <= k < names.len() && names[k] == n && !has_column(cols, n) && #[trigger] all_present(
            cols,
            names.take(k),
        )
}

/// The cells of `values` at the positions `idx`, in that order.
fn gather(values: &Vec<u64>, idx: &Vec<usize>) -> (r: Vec<u64>)
    requires
        forall|k: int| 0 <= k < idx@.len() ==> #[trigger] idx@[k] < values@.len(),
    ensures
        r@ == idx@.map_values(|i: usize| values@[i as int]),
{
    let mut r: Vec<u64> = Vec::new();
    let mut k: usize = 0;
    while k < idx.len()
        invariant
            0 <= k <= idx@.len(),
            forall|a: int| 0 <= a < idx@.len() ==> #[trigger] idx@[a] < values@.len(),
            r@.len() == k,
            forall|a: int| 0 <= a < k ==> #[trigger] r@[a] == values@[idx@[a] as int],
        decreases idx@.len() - k,
    {
        r.push(values[idx[k]]);
        k = k + 1;
    }
    assert(r@ =~= idx@.map_values(|i: usize| values@[i as int]));
    r
}

/// In a well-formed table the chosen position of a column's name is its own.
proof fn lemma_column_index_unique(cols: Seq<ColumnView>, j: int)
    requires
        table_wf(cols),
        0 <= j < cols.len(),
    ensures
        has_column(cols, cols[j].0),
        column_index(cols, cols[j].0) == j,
{
    assert(cols[j].0 == names_of(cols)[j]);
    let c = column_index(cols, cols[j].0);
    assert(names_of(cols)[c] == names_of(cols)[j]);
}

proof fn lemma_take_rows_wf(cols: Seq<ColumnView>, idx: Seq<usize>)
    requires
        table_wf(cols),
    ensures
        table_wf(take_rows_spec(cols, idx)),
{
    let t = take_rows_spec(cols, idx);
    assert(names_of(t) =~= names_of(cols));
    assert forall|j: int| 0 <= j < t.len() implies #[trigger] t[j].1.len() == row_count_of(t) by {
        assert(t[j].1.len() == idx.len());
        assert(t[0].1.len() == idx.len());
    }
}

proof fn lemma_select_wf(cols: Seq<ColumnView>, names: Seq<Seq<char>>)
    requires
        table_wf(cols),
        names.no_duplicates(),
        all_present(cols, names),
    ensures
        table_wf(select_spec(cols, names)),
{
    let t = select_spec(cols, names);
    assert forall|k: int| 0 <= k < names.len() implies #[trigger] t[k].0 == names[k] by {
        assert(has_column(cols, names[k]));
    }
    assert(names_of(t) =~= names);
    assert forall|j: int| 0 <= j < t.len() implies #[trigger] t[j].1.len() == row_count_of(t) by {
        assert(has_column(cols, names[j]));
        assert(has_column(cols, names[0]));
        let a = column_index(cols, names[j]);
        let b = column_index(cols, names[0]);
        assert(cols[a].1.len() == row_count_of(cols));
        assert(cols[b].1.len() == row_count_of(cols));
    }
}

proof fn lemma_join_wf(a: Seq<ColumnView>, b: Seq<ColumnView>)
    requires
        table_wf(a),
        table_wf(b),
        row_count_of(a) == row_count_of(b),
        forall|k: int| 0 <= k < b.len() ==> !has_column(a, #[trigger] b[k].0),
    ensures
        table_wf(a + b),
{
    let t = a + b;
    assert(names_of(t) =~= names_of(a) + names_of(b));
    assert forall|x: int, y: int|
        0 <= x < names_of(t).len() && 0 <= y < names_of(t).len() && x != y implies names_of(
        t,
    )[x] != names_of(t)[y] by {
        if x < a.len() && y >= a.len() {
            assert(!has_column(a, b[y - a.len()].0));
            assert(a[x].0 == names_of(a)[x]);
        } else if y < a.len() && x >= a.len() {
            assert(!has_column(a, b[x - a.len()].0));
            assert(a[y].0 == names_of(a)[y]);
        } else if x < a.len() {
            assert(names_of(a)[x] != names_of(a)[y]);
        } else {
            assert(names_of(b)[x - a.len()] != names_of(b)[y - a.len()]);
        }
    }
    assert forall|j: int| 0 <= j < t.len() implies #[trigger] t[j].1.len() == row_count_of(t) by {
        if a.len() > 0 {
            assert(row_count_of(t) == row_count_of(a));
            if j >= a.len() {
                assert(t[j] == b[j - a.len()]);
            }
        } else {
            assert(t =~= b);
        }
    }
}

} // verus!
