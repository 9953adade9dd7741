//! The result tables: the units of a trained map, and the rows of a data
//! table with their nearest units.

use crate::calc::norm::LinearTransform;
use crate::data::{strings, DataFrame};
use crate::map::som::{width_before, Som};
use crate::num::Num;
use crate::proc::{class_label, class_of, Processor, ProcessorView};
use crate::text::{decimal, decimal_text};
use vstd::prelude::*;

verus! {

/// One cell of a result table.
#[derive(Clone, Debug, PartialEq, Eq)]
pub enum Field {
    /// A text, written as it is.
    Text(String),
    /// A number, written as whoever writes the table writes numbers.
    Number(Num),
}

/// What a [`Field`] holds.
pub enum Cell {
    Text(Seq<char>),
    Number(Num),
}

impl View for Field {
    type V = Cell;

    open spec fn view(&self) -> Cell {
        match self {
            Field::Text(text) => Cell::Text(text@),
            Field::Number(number) => Cell::Number(*number),
        }
    }
}

/// A result table: the names of its columns, and its rows.
#[derive(Clone, Debug, PartialEq, Eq)]
pub struct Output {
    pub names: Vec<String>,
    pub rows: Vec<Vec<Field>>,
}

/// What a row of fields holds.
pub open spec fn cells(row: Seq<Field>) -> Seq<Cell> {
    Seq::new(row.len(), |i: int| row[i]@)
}

/// The cell for a number: where missing numbers are masked, a missing
/// number becomes the no-data text.
pub open spec fn number_cell(value: Num, mask: bool, no_data: Seq<char>) -> Cell {
    if mask && value.missing() {
        Cell::Text(no_data)
    } else {
        Cell::Number(value)
    }
}

/// Whether the numbers of a layer are shown: always those of a layer of
/// numbers, those of a layer of classes where class values are asked for.
pub open spec fn shows_numbers(p: ProcessorView, l: int, class_values: bool) -> bool {
    !p.layers[l].categorical || class_values
}

/// The names of the columns that a layer fills in a result table: those of
/// its numbers where they are shown, then the name of its class.
pub open spec fn layer_names(p: ProcessorView, l: int, class_values: bool) -> Seq<Seq<char>> {
    let start = width_before(p.layers, l);
    let numbers = if shows_numbers(p, l, class_values) {
        p.data.names.subrange(start, start + p.layers[l].ncols)
    } else {
        Seq::empty()
    };
    if p.layers[l].categorical {
        numbers.push(p.input_layers()[l].names[0]@)
    } else {
        numbers
    }
}

/// The names of the columns that the first `n` layers fill.
pub open spec fn all_names(p: ProcessorView, class_values: bool, n: int) -> Seq<Seq<char>>
    decreases n,
{
    if n <= 0 {
        Seq::empty()
    } else {
        all_names(p, class_values, n - 1) + layer_names(p, n - 1, class_values)
    }
}

/// The cells that a layer fills in one row of a result table: its numbers
/// out of `values` where they are shown, then the class that its part of
/// `weights` stands for.
pub open spec fn layer_cells(
    p: ProcessorView,
    l: int,
    class_values: bool,
    mask: bool,
    values: Seq<Num>,
    weights: Seq<Num>,
) -> Seq<Cell> {
    let start = width_before(p.layers, l);
    let numbers = if shows_numbers(p, l, class_values) {
        Seq::new(
            p.layers[l].ncols as nat,
            |j: int| number_cell(values[start + j], mask, p.no_data),
        )
    } else {
        Seq::empty()
    };
    if p.layers[l].categorical {
        numbers.push(Cell::Text(class_of(p.slice(weights, l), p.levels()[l]@, p.no_data)))
    } else {
        numbers
    }
}

/// The cells that the first `n` layers fill in one row.
pub open spec fn all_cells(
    p: ProcessorView,
    class_values: bool,
    mask: bool,
    values: Seq<Num>,
    weights: Seq<Num>,
    n: int,
) -> Seq<Cell>
    decreases n,
{
    if n <= 0 {
        Seq::empty()
    } else {
        all_cells(p, class_values, mask, values, weights, n - 1) + layer_cells(
            p,
            n - 1,
            class_values,
            mask,
            values,
            weights,
        )
    }
}

/// The three cells that name a unit of a grid: its index, its row and its
/// column.
pub open spec fn unit_cells(unit: nat, ncols: nat) -> Seq<Cell> {
    seq![
        Cell::Text(decimal(unit)),
        Cell::Text(decimal(unit / ncols)),
        Cell::Text(decimal(unit % ncols)),
    ]
}

/// Appends the three cells that name a unit of a grid.
fn push_unit(row: &mut Vec<Field>, unit: usize, ncols: usize)
    requires
        ncols > 0,
    ensures
        cells(final(row)@) == cells(old(row)@) + unit_cells(unit as nat, ncols as nat),
{
    row.push(Field::Text(decimal_text(unit)));
    row.push(Field::Text(decimal_text(unit / ncols)));
    row.push(Field::Text(decimal_text(unit % ncols)));
    assert(cells(row@) =~= cells(old(row)@) + unit_cells(unit as nat, ncols as nat));
}

impl Processor {
    /// Appends the names of the columns that the layers fill in a result
    /// table.
    fn push_names(&self, class_values: bool, names: &mut Vec<String>)
        requires
            self.wf(),
        ensures
            strings(final(names)@) == strings(old(names)@) + all_names(
                self@,
                class_values,
                self@.layers.len() as int,
            ),
    {
        let layers = self.layers();
        let columns = self.data().names();
        let ghost base = strings(names@);
        assert(strings(names@) =~= base + all_names(self@, class_values, 0));
        let mut l: usize = 0;
        while l < layers.len()
            invariant
                self.wf(),
                l <= layers.len(),
                layers@ == self@.layers,
                strings(columns@) == self@.data.names,
                strings(names@) == base + all_names(self@, class_values, l as int),
            decreases layers.len() - l,
        {
            let ghost before = strings(names@);
            let (start, end) = self.layer_range(l);
            assert(columns.len() == strings(columns@).len());
            if !layers[l].categorical || class_values {
                let mut c = start;
                assert(strings(names@) =~= before + self@.data.names.subrange(
                    start as int,
                    c as int,
                ));
                while c < end
                    invariant
                        start <= c <= end,
                        end <= columns.len(),
                        strings(columns@) == self@.data.names,
                        strings(names@) == before + self@.data.names.subrange(
                            start as int,
                            c as int,
                        ),
                    decreases end - c,
                {
                    let ghost prev = strings(names@);
                    names.push(columns[c].clone());
                    assert(strings(columns@)[c as int] == columns[c as int]@);
                    assert(strings(names@) =~= prev.push(columns[c as int]@));
                    assert(self@.data.names.subrange(start as int, c + 1)
                        =~= self@.data.names.subrange(start as int, c as int).push(
                        self@.data.names[c as int],
                    ));
                    assert(strings(names@) =~= before + self@.data.names.subrange(
                        start as int,
                        c + 1,
                    ));
                    c += 1;
                }
            }
            let ghost numbers = strings(names@);
            if layers[l].categorical {
                names.push(self.input_layers()[l].names[0].clone());
                assert(strings(names@) =~= numbers.push(self@.input_layers()[l as int].names[0]@));
            }
            assert(strings(names@) =~= before + layer_names(self@, l as int, class_values));
            assert(strings(names@) =~= base + all_names(self@, class_values, l + 1));
            l += 1;
        }
    }

    /// Appends the cells that the layers fill in one row of a result table.
    fn push_cells(
        &self,
        class_values: bool,
        mask: bool,
        values: &[Num],
        weights: &[Num],
        row: &mut Vec<Field>,
    )
        requires
            self.wf(),
            values.len() == self@.data.ncols,
            weights.len() == self@.data.ncols,
        ensures
            cells(final(row)@) == cells(old(row)@) + all_cells(
                self@,
                class_values,
                mask,
                values@,
                weights@,
                self@.layers.len() as int,
            ),
    {
        let layers = self.layers();
        let ghost base = cells(row@);
        assert(cells(row@) =~= base + all_cells(self@, class_values, mask, values@, weights@, 0));
        let mut l: usize = 0;
        while l < layers.len()
            invariant
                self.wf(),
                l <= layers.len(),
                layers@ == self@.layers,
                values.len() == self@.data.ncols,
                weights.len() == self@.data.ncols,
                cells(row@) == base + all_cells(
                    self@,
                    class_values,
                    mask,
                    values@,
                    weights@,
                    l as int,
                ),
            decreases layers.len() - l,
        {
            let ghost before = cells(row@);
            let (start, end) = self.layer_range(l);
            if !layers[l].categorical || class_values {
                let mut c = start;
                assert(cells(row@) =~= before + Seq::new(
                    (c - start) as nat,
                    |j: int| number_cell(values[start + j], mask, self@.no_data),
                ));
                while c < end
                    invariant
                        start <= c <= end,
                        end <= values.len(),
                        cells(row@) == before + Seq::new(
                            (c - start) as nat,
                            |j: int| number_cell(values[start + j], mask, self@.no_data),
                        ),
                    decreases end - c,
                {
                    let v = values[c];
                    let ghost prev = cells(row@);
                    if mask && v.is_nan() {
                        row.push(Field::Text(self.no_data().to_owned()));
                    } else {
                        row.push(Field::Number(v));
                    }
                    assert(cells(row@) =~= prev.push(number_cell(v, mask, self@.no_data)));
                    assert(cells(row@) =~= before + Seq::new(
                        (c + 1 - start) as nat,
                        |j: int| number_cell(values[start + j], mask, self@.no_data),
                    ));
                    c += 1;
                }
            }
            let ghost numbers = cells(row@);
            if layers[l].categorical {
                let slice = vstd::slice::slice_subrange(weights, start, end);
                let label = class_label(slice, &self.levels()[l], self.no_data());
                row.push(Field::Text(label));
                assert(cells(row@) =~= numbers.push(
                    Cell::Text(
                        class_of(
                            self@.slice(weights@, l as int),
                            self@.levels()[l as int]@,
                            self@.no_data,
                        ),
                    ),
                ));
            }
            assert(cells(row@) =~= before + layer_cells(
                self@,
                l as int,
                class_values,
                mask,
                values@,
                weights@,
            ));
            assert(cells(row@) =~= base + all_cells(
                self@,
                class_values,
                mask,
                values@,
                weights@,
                l + 1,
            ));
            l += 1;
        }
    }

    /// The table of the units of a map: for each unit its index, row and
    /// column in the grid, then layer after layer the de-normalized weights
    /// and the class that the weights stand for. The weights of a layer of
    /// classes are left out unless `class_values` asks for them.
    ///
    /// `denormalized` holds the de-normalized weights of the map.
    pub fn som_units_table(&self, som: &Som, denormalized: &DataFrame, class_values: bool) ->
        (table:
        Output)
        requires
            self.wf(),
            som.wf(),
            som@.ncols > 0,
            som@.dims == self@.data.ncols,
            denormalized.wf(),
            denormalized@.nrows == som@.size(),
            denormalized@.ncols == som@.dims,
        ensures
            strings(table.names@) == seq!["index"@, "row"@, "col"@] + all_names(
                self@,
                class_values,
                self@.layers.len() as int,
            ),
            table.rows.len() == som@.size(),
            forall|u: int|
                0 <= u < som@.size() ==> cells((#[trigger] table.rows[u])@) == unit_cells(
                    u as nat,
                    som@.ncols,
                ) + all_cells(
                    self@,
                    class_values,
                    false,
                    denormalized@.row(u),
                    som@.weights.row(u),
                    self@.layers.len() as int,
                ),
    {
        let mut names: Vec<String> = Vec::new();
        names.push("index".to_owned());
        names.push("row".to_owned());
        names.push("col".to_owned());
        assert(strings(names@) =~= seq!["index"@, "row"@, "col"@]);
        self.push_names(class_values, &mut names);
        let weights = som.weights();
        let mut rows: Vec<Vec<Field>> = Vec::new();
        let mut u: usize = 0;
        while u < weights.nrows()
            invariant
                self.wf(),
                som.wf(),
                som@.ncols > 0,
                som@.dims == self@.data.ncols,
                weights@ == som@.weights,
                denormalized.wf(),
                denormalized@.nrows == som@.size(),
                denormalized@.ncols == som@.dims,
                u <= som@.size(),
                rows.len() == u,
                forall|k: int|
                    0 <= k < u ==> cells((#[trigger] rows[k])@) == unit_cells(k as nat, som@.ncols)
                        + all_cells(
                        self@,
                        class_values,
                        false,
                        denormalized@.row(k),
                        som@.weights.row(k),
                        self@.layers.len() as int,
                    ),
            decreases som@.size() - u,
        {
            let mut row: Vec<Field> = Vec::new();
            assert(cells(row@) =~= Seq::<Cell>::empty());
            push_unit(&mut row, u, som.ncols());
            self.push_cells(
                class_values,
                false,
                denormalized.get_row(u),
                weights.get_row(u),
                &mut row,
            );
            rows.push(row);
            u += 1;
        }
        Output { names, rows }
    }

    /// The table of the rows of a data table with their nearest units: for
    /// each row the preserved columns, then layer after layer the
    /// de-normalized numbers, or for a layer of classes the class, then the
    /// index, row and column of the nearest unit. A missing number is
    /// written as the no-data text.
    ///
    /// `data` holds the rows as the map sees them, `denormalized` their
    /// de-normalized numbers, and `nearest` the nearest unit of each row.
    pub fn data_nearest_table(
        &self,
        som: &Som,
        data: &DataFrame,
        denormalized: &DataFrame,
        nearest: &[(usize, Num)],
    ) -> (table: Output)
        requires
            self.wf(),
            som@.ncols > 0,
            data.wf(),
            data@.ncols == self@.data.ncols,
            data@.nrows == self@.data.nrows,
            denormalized.wf(),
            denormalized@.nrows == data@.nrows,
            denormalized@.ncols == data@.ncols,
            nearest.len() == data@.nrows,
        ensures
            strings(table.names@) == strings(self@.preserve_columns) + all_names(
                self@,
                false,
                self@.layers.len() as int,
            ) + seq!["som_index"@, "som_row"@, "som_col"@],
            table.rows.len() == data@.nrows,
            forall|r: int|
                0 <= r < data@.nrows ==> cells((#[trigger] table.rows[r])@) == preserved_cells(
                    self@,
                    r,
                ) + all_cells(
                    self@,
                    false,
                    true,
                    denormalized@.row(r),
                    data@.row(r),
                    self@.layers.len() as int,
                ) + unit_cells(nearest[r].0 as nat, som@.ncols),
    {
        let preserve = self.preserve_columns();
        let preserved = self.preserved();
        let mut names: Vec<String> = Vec::new();
        let mut i: usize = 0;
        while i < preserve.len()
            invariant
                i <= preserve.len(),
                names.len() == i,
                forall|k: int| 0 <= k < i ==> names[k]@ == preserve[k]@,
            decreases preserve.len() - i,
        {
            names.push(preserve[i].clone());
            i += 1;
        }
        assert(strings(names@) =~= strings(self@.preserve_columns));
        self.push_names(false, &mut names);
        let ghost middle = strings(names@);
        names.push("som_index".to_owned());
        names.push("som_row".to_owned());
        names.push("som_col".to_owned());
        assert(strings(names@) =~= middle + seq!["som_index"@, "som_row"@, "som_col"@]);
        let mut rows: Vec<Vec<Field>> = Vec::new();
        let mut r: usize = 0;
        while r < data.nrows()
            invariant
                self.wf(),
                som@.ncols > 0,
                data.wf(),
                data@.ncols == self@.data.ncols,
                data@.nrows == self@.data.nrows,
                denormalized.wf(),
                denormalized@.nrows == data@.nrows,
                denormalized@.ncols == data@.ncols,
                nearest.len() == data@.nrows,
                preserved@ == self@.preserved,
                r <= data@.nrows,
                rows.len() == r,
                forall|k: int|
                    0 <= k < r ==> cells((#[trigger] rows[k])@) == preserved_cells(self@, k)
                        + all_cells(
                        self@,
                        false,
                        true,
                        denormalized@.row(k),
                        data@.row(k),
                        self@.layers.len() as int,
                    ) + unit_cells(nearest[k].0 as nat, som@.ncols),
            decreases data@.nrows - r,
        {
            let mut row: Vec<Field> = Vec::new();
            let mut i: usize = 0;
            while i < preserved.len()
                invariant
                    self.wf(),
                    preserved@ == self@.preserved,
                    r < self@.data.nrows,
                    i <= preserved.len(),
                    row.len() == i,
                    forall|k: int| 0 <= k < i ==> row[k]@ == Cell::Text(preserved[k][r as int]@),
                decreases preserved.len() - i,
            {
                row.push(Field::Text(preserved[i][r].clone()));
                i += 1;
            }
            assert(cells(row@) =~= preserved_cells(self@, r as int));
            self.push_cells(false, true, denormalized.get_row(r), data.get_row(r), &mut row);
            push_unit(&mut row, nearest[r].0, som.ncols());
            rows.push(row);
            r += 1;
        }
        Output { names, rows }
    }

    /// The table of the normalization: for each column of the training data
    /// its name, its normalizer, the scale and the offset of the transform
    /// that normalizes it, and those of the transform that takes the
    /// normalization back.
    ///
    /// `forward` holds the transforms that normalize.
    pub fn normalization_table(&self, forward: &[LinearTransform]) -> (table: Output)
        requires
            self.wf(),
            forward.len() == self@.data.ncols,
        ensures
            strings(table.names@) == seq![
                "column"@,
                "norm"@,
                "scale"@,
                "offset"@,
                "inverse_scale"@,
                "inverse_offset"@,
            ],
            table.rows.len() == self@.data.ncols,
            forall|c: int|
                0 <= c < self@.data.ncols ==> cells((#[trigger] table.rows[c])@) == seq![
                    Cell::Text(self@.data.names[c]),
                    Cell::Text(self@.norm[c].spec_name()),
                    Cell::Number(forward[c].scale),
                    Cell::Number(forward[c].offset),
                    Cell::Number(self@.denorm[c].scale),
                    Cell::Number(self@.denorm[c].offset),
                ],
    {
        let mut names: Vec<String> = Vec::new();
        names.push("column".to_owned());
        names.push("norm".to_owned());
        names.push("scale".to_owned());
        names.push("offset".to_owned());
        names.push("inverse_scale".to_owned());
        names.push("inverse_offset".to_owned());
        assert(strings(names@) =~= seq![
            "column"@,
            "norm"@,
            "scale"@,
            "offset"@,
            "inverse_scale"@,
            "inverse_offset"@,
        ]);
        let columns = self.data().names();
        let norm = self.norm();
        let denorm = self.denorm();
        let mut rows: Vec<Vec<Field>> = Vec::new();
        let mut c: usize = 0;
        assert(columns.len() == strings(columns@).len());
        while c < columns.len()
            invariant
                self.wf(),
                c <= columns.len(),
                columns.len() == self@.data.ncols,
                strings(columns@) == self@.data.names,
                norm@ == self@.norm,
                denorm@ == self@.denorm,
                forward.len() == self@.data.ncols,
                rows.len() == c,
                forall|k: int|
                    0 <= k < c ==> cells((#[trigger] rows[k])@) == seq![
                        Cell::Text(self@.data.names[k]),
                        Cell::Text(self@.norm[k].spec_name()),
                        Cell::Number(forward[k].scale),
                        Cell::Number(forward[k].offset),
                        Cell::Number(self@.denorm[k].scale),
                        Cell::Number(self@.denorm[k].offset),
                    ],
            decreases columns.len() - c,
        {
            let mut row: Vec<Field> = Vec::new();
            row.push(Field::Text(columns[c].clone()));
            row.push(Field::Text(norm[c].name().to_owned()));
            row.push(Field::Number(forward[c].scale));
            row.push(Field::Number(forward[c].offset));
            row.push(Field::Number(denorm[c].scale));
            row.push(Field::Number(denorm[c].offset));
            assert(strings(columns@)[c as int] == columns[c as int]@);
            assert(cells(row@) =~= seq![
                Cell::Text(self@.data.names[c as int]),
                Cell::Text(self@.norm[c as int].spec_name()),
                Cell::Number(forward[c as int].scale),
                Cell::Number(forward[c as int].offset),
                Cell::Number(self@.denorm[c as int].scale),
                Cell::Number(self@.denorm[c as int].offset),
            ]);
            rows.push(row);
            c += 1;
        }
        Output { names, rows }
    }
}

/// The cells of the preserved columns in one row.
pub open spec fn preserved_cells(p: ProcessorView, row: int) -> Seq<Cell> {
    Seq::new(p.preserved.len(), |i: int| Cell::Text(p.preserved[i][row]@))
}

} // verus!
