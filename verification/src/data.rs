//! Data structures: a dense table of numbers with named columns.

use crate::num::{all_missing, argmax, argmin, first_greatest, first_least, Num, MISSING};
use vstd::prelude::*;

verus! {

/// What a [`DataFrame`] holds: the column names, the shape, and the cells
/// row after row.
pub struct Table {
    pub names: Seq<Seq<char>>,
    pub ncols: nat,
    pub nrows: nat,
    pub cells: Seq<Num>,
}

impl Table {
    /// The cell at (row, column).
    pub open spec fn at(self, row: int, col: int) -> Num {
        self.cells[row * self.ncols + col]
    }

    /// One row.
    pub open spec fn row(self, row: int) -> Seq<Num> {
        self.cells.subrange(row * self.ncols, row * self.ncols + self.ncols)
    }

    /// There is one name for each column and one cell for each row and
    /// column.
    pub open spec fn wf(self) -> bool {
        &&& self.names.len() == self.ncols
        &&& self.cells.len() == self.nrows * self.ncols
    }

    /// One column, from the first row to the last.
    pub open spec fn column(self, col: int) -> Seq<Num> {
        Seq::new(self.nrows, |r: int| self.at(r, col))
    }
}

/// The names that a slice of string slices holds.
pub open spec fn texts(columns: Seq<&str>) -> Seq<Seq<char>> {
    Seq::new(columns.len(), |i: int| columns[i]@)
}

/// The names that a sequence of strings holds.
pub open spec fn strings(columns: Seq<String>) -> Seq<Seq<char>> {
    Seq::new(columns.len(), |i: int| columns[i]@)
}

/// The cells of a list of rows, row after row.
pub open spec fn flatten(rows: Seq<Vec<Num>>) -> Seq<Num>
    decreases rows.len(),
{
    if rows.len() == 0 {
        Seq::empty()
    } else {
        flatten(rows.drop_last()) + rows.last()@
    }
}

/// The number of numbers in a column, missing values left aside.
pub open spec fn count_present(column: Seq<Num>) -> nat
    decreases column.len(),
{
    if column.len() == 0 {
        0
    } else {
        count_present(column.drop_last()) + if column.last().missing() {
            0nat
        } else {
            1nat
        }
    }
}

/// Whether `range` is the range of a column: its first least and its first
/// greatest number, or a pair of missing values where the column holds no
/// number at all.
pub open spec fn is_range(column: Seq<Num>, range: (Num, Num)) -> bool {
    if all_missing(column) {
        range.0.bits == MISSING && range.1.bits == MISSING
    } else {
        &&& exists|i: int| first_least(column, i) && range.0 == column[i]
        &&& exists|i: int| first_greatest(column, i) && range.1 == column[i]
    }
}

/// A cell index inside a table lies inside its cells.
pub proof fn cell_in_table(nrows: nat, ncols: nat, row: int, col: int)
    requires
        0 <= row < nrows,
        0 <= col < ncols,
    ensures
        0 <= row * ncols + col < nrows * ncols,
        row * ncols + ncols <= nrows * ncols,
        0 <= row * ncols,
{
    assert(row * ncols + ncols == (row + 1) * ncols) by (nonlinear_arith);
    assert((row + 1) * ncols <= nrows * ncols) by (nonlinear_arith)
        requires
            row + 1 <= nrows,
    ;
    assert(0 <= row * ncols) by (nonlinear_arith)
        requires
            0 <= row,
    ;
}

/// A row of a table lies inside its cells.
pub proof fn row_in_table(nrows: nat, ncols: nat, row: int)
    requires
        0 <= row < nrows,
    ensures
        0 <= row * ncols,
        row * ncols + ncols <= nrows * ncols,
{
    assert(row * ncols + ncols == (row + 1) * ncols) by (nonlinear_arith);
    assert((row + 1) * ncols <= nrows * ncols) by (nonlinear_arith)
        requires
            row + 1 <= nrows,
    ;
    assert(0 <= row * ncols) by (nonlinear_arith)
        requires
            0 <= row,
    ;
}

/// The cell at (row, column) of a table stands at place `column` of the
/// row and at place `row` of the column.
pub proof fn row_holds_cells(table: Table, row: int, col: int)
    requires
        table.wf(),
        0 <= row < table.nrows,
        0 <= col < table.ncols,
    ensures
        table.row(row).len() == table.ncols,
        table.row(row)[col] == table.at(row, col),
        table.column(col).len() == table.nrows,
        table.column(col)[row] == table.at(row, col),
{
    cell_in_table(table.nrows, table.ncols, row, col);
}

/// A data frame: a table of numbers, all columns of one type, stored row
/// after row. A missing value marks a cell without data.
#[derive(Debug, Clone)]
pub struct DataFrame {
    ncols: usize,
    nrows: usize,
    names: Vec<String>,
    data: Vec<Num>,
}

impl View for DataFrame {
    type V = Table;

    closed spec fn view(&self) -> Table {
        Table {
            names: strings(self.names@),
            ncols: self.ncols as nat,
            nrows: self.nrows as nat,
            cells: self.data@,
        }
    }
}

/// Copies a list of names.
pub fn owned_names(columns: &[&str]) -> (names: Vec<String>)
    ensures
        strings(names@) == texts(columns@),
        names.len() == columns.len(),
{
    let mut names: Vec<String> = Vec::new();
    let mut i: usize = 0;
    while i < columns.len()
        invariant
            i <= columns.len(),
            names.len() == i,
            forall|k: int| 0 <= k < i ==> names[k]@ == columns[k]@,
        decreases columns.len() - i,
    {
        names.push(columns[i].to_owned());
        i += 1;
    }
    assert(strings(names@) =~= texts(columns@));
    names
}

impl DataFrame {
    /// Every frame has one name for each column and one cell for each row
    /// and column.
    pub open spec fn wf(&self) -> bool {
        self@.wf()
    }

    /// Creates an empty data frame, with the given columns and zero rows.
    pub fn empty(columns: &[&str]) -> (df: Self)
        ensures
            df.wf(),
            df@.names == texts(columns@),
            df@.ncols == columns.len(),
            df@.nrows == 0,
            df@.cells == Seq::<Num>::empty(),
    {
        let names = owned_names(columns);
        DataFrame { names, ncols: columns.len(), nrows: 0, data: Vec::new() }
    }

    /// Creates a data frame with the given number of rows and the given
    /// columns, every cell filled with one value.
    pub fn filled(nrows: usize, columns: &[&str], fill: Num) -> (df: Self)
        requires
            nrows * columns.len() <= usize::MAX,
        ensures
            df.wf(),
            df@.names == texts(columns@),
            df@.ncols == columns.len(),
            df@.nrows == nrows,
            df@.cells == Seq::new((nrows * columns.len()) as nat, |i: int| fill),
    {
        let names = owned_names(columns);
        let total: usize = nrows * columns.len();
        let mut data: Vec<Num> = Vec::new();
        let mut i: usize = 0;
        while i < total
            invariant
                i <= total,
                data.len() == i,
                forall|k: int| 0 <= k < i ==> data[k] == fill,
            decreases total - i,
        {
            data.push(fill);
            i += 1;
        }
        assert(data@ =~= Seq::new((nrows * columns.len()) as nat, |i: int| fill));
        DataFrame { names, ncols: columns.len(), nrows, data }
    }

    /// Number of columns in the data frame.
    pub fn ncols(&self) -> (n: usize)
        ensures
            n == self@.ncols,
    {
        self.ncols
    }

    /// Number of rows in the data frame.
    pub fn nrows(&self) -> (n: usize)
        ensures
            n == self@.nrows,
    {
        self.nrows
    }

    /// The raw data: all cells, row after row.
    pub fn data(&self) -> (cells: &[Num])
        ensures
            cells@ == self@.cells,
    {
        self.data.as_slice()
    }

    /// The column names.
    pub fn names(&self) -> (names: &[String])
        ensures
            strings(names@) == self@.names,
    {
        self.names.as_slice()
    }

    /// Creates a data frame from a list of rows.
    pub fn from_rows(columns: &[&str], rows: &[Vec<Num>]) -> (df: Self)
        requires
            rows.len() > 0,
            forall|r: int| 0 <= r < rows.len() ==> (#[trigger] rows[r]).len() == columns.len(),
        ensures
            df.wf(),
            df@.names == texts(columns@),
            df@.ncols == columns.len(),
            df@.nrows == rows.len(),
            df@.cells == flatten(rows@),
            forall|r: int| 0 <= r < rows.len() ==> df@.row(r) == (#[trigger] rows[r])@,
    {
        let names = owned_names(columns);
        let ncols = columns.len();
        let mut data: Vec<Num> = Vec::new();
        let mut r: usize = 0;
        while r < rows.len()
            invariant
                r <= rows.len(),
                ncols == columns.len(),
                forall|k: int| 0 <= k < rows.len() ==> (#[trigger] rows[k]).len() == ncols,
                data@ == flatten(rows@.take(r as int)),
                data.len() == r * ncols,
                forall|k: int|
                    0 <= k < r ==>
                        data@.subrange(k * ncols, k * ncols + ncols) == (#[trigger] rows[k])@,
            decreases rows.len() - r,
        {
            let row = &rows[r];
            let ghost before = data@;
            let mut c: usize = 0;
            while c < ncols
                invariant
                    c <= ncols,
                    row.len() == ncols,
                    data@ == before + row@.take(c as int),
                decreases ncols - c,
            {
                data.push(row[c]);
                assert(row@.take(c + 1) =~= row@.take(c as int).push(row[c as int]));
                assert(data@ =~= before + row@.take(c + 1));
                c += 1;
            }
            proof {
                assert(row@.take(ncols as int) =~= row@);
                assert(rows@.take(r + 1).drop_last() =~= rows@.take(r as int));
                assert(rows@.take(r + 1).last() == rows[r as int]);
                assert((r + 1) * ncols == r * ncols + ncols) by (nonlinear_arith);
                assert forall|k: int| 0 <= k < r + 1 implies data@.subrange(
                    k * ncols,
                    k * ncols + ncols,
                ) == (#[trigger] rows[k])@ by {
                    row_in_table((r + 1) as nat, ncols as nat, k);
                    if k < r {
                        row_in_table(r as nat, ncols as nat, k);
                        assert(data@.subrange(k * ncols, k * ncols + ncols) =~= before.subrange(
                            k * ncols,
                            k * ncols + ncols,
                        ));
                    } else {
                        assert(data@.subrange(k * ncols, k * ncols + ncols) =~= row@);
                    }
                }
            }
            r += 1;
        }
        assert(rows@.take(rows.len() as int) =~= rows@);
        DataFrame { names, ncols, nrows: rows.len(), data }
    }

    /// Appends a row to the end of the data frame.
    pub fn push_row(&mut self, row: &[Num])
        requires
            old(self).wf(),
            row.len() == old(self)@.ncols,
            old(self)@.nrows < usize::MAX,
        ensures
            final(self).wf(),
            final(self)@.names == old(self)@.names,
            final(self)@.ncols == old(self)@.ncols,
            final(self)@.nrows == old(self)@.nrows + 1,
            final(self)@.cells == old(self)@.cells + row@,
            final(self)@.row(old(self)@.nrows as int) == row@,
            forall|r: int| 0 <= r < old(self)@.nrows ==> final(self)@.row(r) == old(self)@.row(r),
    {
        let ghost before = self.data@;
        let mut c: usize = 0;
        while c < row.len()
            invariant
                c <= row.len(),
                self.data@ == before + row@.take(c as int),
                self.ncols == old(self).ncols,
                self.nrows == old(self).nrows,
                self.names == old(self).names,
            decreases row.len() - c,
        {
            self.data.push(row[c]);
            assert(row@.take(c + 1) =~= row@.take(c as int).push(row[c as int]));
            assert(self.data@ =~= before + row@.take(c + 1));
            c += 1;
        }
        self.nrows = self.nrows + 1;
        proof {
            let n = old(self)@.nrows as int;
            let w = old(self)@.ncols as int;
            assert(row@.take(row.len() as int) =~= row@);
            assert((n + 1) * w == n * w + w) by (nonlinear_arith);
            assert(self@.row(n) =~= row@);
            assert forall|r: int| 0 <= r < n implies self@.row(r) == old(self)@.row(r) by {
                row_in_table(n as nat, w as nat, r);
                assert(self@.row(r) =~= old(self)@.row(r));
            }
        }
    }

    /// Appends a row to the end of the data frame, taking the row over.
    pub fn push_row_iter(&mut self, row: Vec<Num>)
        requires
            old(self).wf(),
            row.len() == old(self)@.ncols,
            old(self)@.nrows < usize::MAX,
        ensures
            final(self).wf(),
            final(self)@.names == old(self)@.names,
            final(self)@.ncols == old(self)@.ncols,
            final(self)@.nrows == old(self)@.nrows + 1,
            final(self)@.cells == old(self)@.cells + row@,
    {
        self.push_row(row.as_slice());
    }

    /// The raw data index of (row, column).
    pub fn index(&self, row: usize, col: usize) -> (i: usize)
        requires
            row * self@.ncols + col <= usize::MAX,
        ensures
            i == row * self@.ncols + col,
    {
        assert(row * self.ncols <= row * self.ncols + col) by (nonlinear_arith);
        row * self.ncols + col
    }

    /// The (row, column) of a raw data index.
    pub fn to_row_col(&self, index: usize) -> (rc: (usize, usize))
        requires
            self@.ncols > 0,
        ensures
            rc.0 == index as int / self@.ncols as int,
            rc.1 == index as int % self@.ncols as int,
            rc.0 * self@.ncols + rc.1 == index,
            rc.1 < self@.ncols,
    {
        proof {
            vstd::arithmetic::div_mod::lemma_fundamental_div_mod(index as int, self.ncols as int);
            assert(self.ncols * (index as int / self.ncols as int)
                == (index as int / self.ncols as int)
                * self.ncols) by (nonlinear_arith);
        }
        (index / self.ncols, index % self.ncols)
    }

    /// The value at (row, column).
    pub fn get(&self, row: usize, col: usize) -> (cell: &Num)
        requires
            self.wf(),
            row < self@.nrows,
            col < self@.ncols,
        ensures
            *cell == self@.at(row as int, col as int),
            *cell == self@.row(row as int)[col as int],
    {
        let total = self.data.len();
        proof {
            row_holds_cells(self@, row as int, col as int);
            cell_in_table(self@.nrows, self@.ncols, row as int, col as int);
        }
        let idx = self.index(row, col);
        &self.data[idx]
    }

    /// Sets the value at (row, column).
    pub fn set(&mut self, row: usize, col: usize, value: Num)
        requires
            old(self).wf(),
            row < old(self)@.nrows,
            col < old(self)@.ncols,
        ensures
            final(self).wf(),
            final(self)@ == (Table {
                cells: old(self)@.cells.update(row * old(self)@.ncols + col, value),
                ..old(self)@
            }),
            final(self)@.at(row as int, col as int) == value,
            final(self)@.row(row as int) == old(self)@.row(row as int).update(col as int, value),
            forall|r: int|
                0 <= r < old(self)@.nrows && r != row ==> #[trigger] final(self)@.row(r) == old(
                    self,
                )@.row(r),
    {
        let total = self.data.len();
        proof {
            cell_in_table(self@.nrows, self@.ncols, row as int, col as int);
        }
        let idx = self.index(row, col);
        self.data.set(idx, value);
        proof {
            let w = self@.ncols as int;
            row_in_table(self@.nrows, self@.ncols, row as int);
            assert(self@.row(row as int) =~= old(self)@.row(row as int).update(col as int, value));
            assert forall|r: int| 0 <= r < self@.nrows && r != row implies #[trigger] self@.row(r)
                == old(self)@.row(r) by {
                row_in_table(self@.nrows, self@.ncols, r);
                if r < row {
                    assert(r * w + w <= row * w) by (nonlinear_arith)
                        requires
                            r + 1 <= row,
                            w >= 0,
                    ;
                } else {
                    assert(row * w + w <= r * w) by (nonlinear_arith)
                        requires
                            row + 1 <= r,
                            w >= 0,
                    ;
                }
                assert(self@.row(r) =~= old(self)@.row(r));
            }
        }
    }

    /// The cell at (row, column), to be written through.
    pub fn get_mut(&mut self, row: usize, col: usize) -> (cell: &mut Num)
        requires
            old(self).wf(),
            row < old(self)@.nrows,
            col < old(self)@.ncols,
        ensures
            *cell == old(self)@.at(row as int, col as int),
            final(self).wf(),
            final(self)@ == (Table {
                cells: old(self)@.cells.update(row * old(self)@.ncols + col, *final(cell)),
                ..old(self)@
            }),
    {
        let total = self.data.len();
        proof {
            cell_in_table(self@.nrows, self@.ncols, row as int, col as int);
        }
        let idx = self.index(row, col);
        &mut self.data[idx]
    }

    /// The cell at the given index in the raw data, to be written through.
    pub fn get_mut_at(&mut self, index: usize) -> (cell: &mut Num)
        requires
            index < old(self)@.cells.len(),
        ensures
            *cell == old(self)@.cells[index as int],
            final(self)@ == (Table {
                cells: old(self)@.cells.update(index as int, *final(cell)),
                ..old(self)@
            }),
            old(self).wf() ==> final(self).wf(),
    {
        &mut self.data[index]
    }

    /// The value at the given index in the raw data.
    pub fn get_at(&self, index: usize) -> (cell: &Num)
        requires
            index < self@.cells.len(),
        ensures
            *cell == self@.cells[index as int],
    {
        &self.data[index]
    }

    /// Sets the value at the given index in the raw data.
    pub fn set_at(&mut self, index: usize, value: Num)
        requires
            index < old(self)@.cells.len(),
        ensures
            final(self)@
                == (Table { cells: old(self)@.cells.update(index as int, value), ..old(self)@ }),
            old(self).wf() ==> final(self).wf(),
    {
        self.data.set(index, value);
    }

    /// One row.
    pub fn get_row(&self, row: usize) -> (cells: &[Num])
        requires
            self.wf(),
            row < self@.nrows,
        ensures
            cells@ == self@.row(row as int),
            cells@.len() == self@.ncols,
    {
        let total = self.data.len();
        proof {
            row_in_table(self@.nrows, self@.ncols, row as int);
        }
        let idx = self.index(row, 0);
        vstd::slice::slice_subrange(self.data.as_slice(), idx, idx + self.ncols)
    }

    /// All rows, from the first to the last.
    pub fn iter_rows(&self) -> (rows: Vec<&[Num]>)
        requires
            self.wf(),
        ensures
            rows.len() == self@.nrows,
            forall|r: int| 0 <= r < rows.len() ==> (#[trigger] rows[r])@ == self@.row(r),
    {
        let mut rows: Vec<&[Num]> = Vec::new();
        let mut r: usize = 0;
        while r < self.nrows
            invariant
                self.wf(),
                r <= self.nrows,
                rows.len() == r,
                forall|k: int| 0 <= k < r ==> (#[trigger] rows[k])@ == self@.row(k),
            decreases self.nrows - r,
        {
            rows.push(self.get_row(r));
            r += 1;
        }
        rows
    }

    /// Copies a column's values into a new vector.
    pub fn copy_column(&self, column: usize) -> (cells: Vec<Num>)
        requires
            self.wf(),
            column < self@.ncols,
        ensures
            cells@ == self@.column(column as int),
    {
        let mut cells: Vec<Num> = Vec::new();
        let mut r: usize = 0;
        while r < self.nrows
            invariant
                self.wf(),
                column < self@.ncols,
                r <= self.nrows,
                cells.len() == r,
                forall|k: int| 0 <= k < r ==> cells[k] == self@.at(k, column as int),
            decreases self.nrows - r,
        {
            cells.push(*self.get(r, column));
            r += 1;
        }
        assert(cells@ =~= self@.column(column as int));
        cells
    }

    /// The range of each column: its least and its greatest value, missing
    /// values left aside. A column without any value has a missing range.
    pub fn ranges(&self) -> (ranges: Vec<(Num, Num)>)
        requires
            self.wf(),
        ensures
            ranges.len() == self@.ncols,
            forall|c: int| 0 <= c < ranges.len() ==>
                is_range(self@.column(c), #[trigger] ranges[c]),
    {
        let mut ranges: Vec<(Num, Num)> = Vec::new();
        let mut c: usize = 0;
        while c < self.ncols
            invariant
                self.wf(),
                c <= self.ncols,
                ranges.len() == c,
                forall|k: int| 0 <= k < c ==> is_range(self@.column(k), #[trigger] ranges[k]),
            decreases self.ncols - c,
        {
            let column = self.copy_column(c);
            let range = match (argmin(column.as_slice()), argmax(column.as_slice())) {
                (Some(lo), Some(hi)) => (column[lo], column[hi]),
                _ => (Num::nan(), Num::nan()),
            };
            ranges.push(range);
            c += 1;
        }
        ranges
    }

    /// A data frame of the given columns of this one, in the given order,
    /// with their names and all rows.
    pub fn select(&self, columns: &[usize]) -> (df: Self)
        requires
            self.wf(),
            forall|i: int| 0 <= i < columns.len() ==> (#[trigger] columns[i]) < self@.ncols,
            self@.nrows * columns.len() <= usize::MAX,
        ensures
            df.wf(),
            df@.ncols == columns.len(),
            df@.nrows == self@.nrows,
            forall|i: int|
                0 <= i < columns.len() ==>
                    (#[trigger] df@.names[i]) == self@.names[columns[i] as int],
            forall|r: int, i: int|
                0 <= r < self@.nrows && 0 <= i < columns.len() ==> (#[trigger] df@.at(r, i))
                    == self@.at(r, columns[i] as int),
    {
        let mut names: Vec<String> = Vec::new();
        let mut i: usize = 0;
        while i < columns.len()
            invariant
                self.wf(),
                i <= columns.len(),
                names.len() == i,
                forall|k: int| 0 <= k < columns.len() ==> (#[trigger] columns[k]) < self@.ncols,
                forall|k: int| 0 <= k < i ==>
                    (#[trigger] names[k])@ == self@.names[columns[k] as int],
            decreases columns.len() - i,
        {
            names.push(self.names[columns[i]].clone());
            i += 1;
        }
        let width = columns.len();
        let mut data: Vec<Num> = Vec::new();
        let mut r: usize = 0;
        while r < self.nrows
            invariant
                self.wf(),
                width == columns.len(),
                r <= self.nrows,
                self@.nrows * width <= usize::MAX,
                data.len() == r * width,
                forall|k: int| 0 <= k < columns.len() ==> (#[trigger] columns[k]) < self@.ncols,
                forall|x: int, k: int|
                    0 <= x < r && 0 <= k < width ==> data[x * width + k] == #[trigger] self@.at(
                        x,
                        columns[k] as int,
                    ),
            decreases self.nrows - r,
        {
            let mut c: usize = 0;
            while c < width
                invariant
                    self.wf(),
                    width == columns.len(),
                    r < self.nrows,
                    c <= width,
                    data.len() == r * width + c,
                    forall|k: int| 0 <= k < columns.len() ==> (#[trigger] columns[k]) < self@.ncols,
                    forall|x: int, k: int|
                        0 <= x < r && 0 <= k < width ==> data[x * width + k] == #[trigger] self@.at(
                            x,
                            columns[k] as int,
                        ),
                    forall|k: int|
                        0 <= k < c ==> data[r * width + k] == #[trigger] self@.at(
                            r as int,
                            columns[k] as int,
                        ),
                decreases width - c,
            {
                let ghost before = data@;
                data.push(*self.get(r, columns[c]));
                proof {
                    assert forall|x: int, k: int| 0 <= x < r && 0 <= k < width implies data[x
                        * width + k] == #[trigger] self@.at(x, columns[k] as int) by {
                        cell_in_table(r as nat, width as nat, x, k);
                        assert(data[x * width + k] == before[x * width + k]);
                    }
                }
                c += 1;
            }
            proof {
                assert((r + 1) * width == r * width + width) by (nonlinear_arith);
                assert forall|x: int, k: int| 0 <= x < r + 1 && 0 <= k < width implies data[x
                    * width + k] == #[trigger] self@.at(x, columns[k] as int) by {
                    if x == r {
                    }
                }
            }
            r += 1;
        }
        let df = DataFrame { names, ncols: width, nrows: self.nrows, data };
        proof {
            assert(df@.names.len() == width);
            assert forall|i: int| 0 <= i < columns.len() implies (#[trigger] df@.names[i])
                == self@.names[columns[i] as int] by {
                assert(df@.names[i] == names[i]@);
            }
        }
        df
    }

    /// For each column the number of its cells that hold a number: what a
    /// mean of the column is taken over.
    pub fn counts(&self) -> (counts: Vec<usize>)
        requires
            self.wf(),
        ensures
            counts.len() == self@.ncols,
            forall|c: int|
                0 <= c < counts.len() ==> (#[trigger] counts[c]) == count_present(self@.column(c)),
    {
        let mut counts: Vec<usize> = Vec::new();
        let mut c: usize = 0;
        while c < self.ncols
            invariant
                self.wf(),
                c <= self.ncols,
                counts.len() == c,
                forall|k: int|
                    0 <= k < c ==> (#[trigger] counts[k]) == count_present(self@.column(k)),
            decreases self.ncols - c,
        {
            let column = self.copy_column(c);
            let mut count: usize = 0;
            let mut r: usize = 0;
            while r < column.len()
                invariant
                    r <= column.len(),
                    count <= r,
                    count == count_present(column@.take(r as int)),
                decreases column.len() - r,
            {
                assert(column@.take(r + 1).drop_last() =~= column@.take(r as int));
                if !column[r].is_nan() {
                    count += 1;
                }
                r += 1;
            }
            assert(column@.take(column.len() as int) =~= column@);
            counts.push(count);
            c += 1;
        }
        counts
    }
}

} // verus!
