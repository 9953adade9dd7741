//! The schema of the training data: which columns of an input table are
//! read, and what becomes of them.

use crate::data::strings;
use crate::map::som::{total_width, width_before, Layer};
use crate::num::{Num, ONE};
use crate::proc::levels::{column_texts, is_levels};
use crate::proc::{InputLayer, Record};
use crate::text::same_text;
use vstd::prelude::*;

verus! {

/// Where `name` stands first in `header`, if it stands there.
pub open spec fn position(header: Seq<Seq<char>>, name: Seq<char>) -> Option<int> {
    if exists|i: int| 0 <= i < header.len() && header[i] == name {
        Some(first_position(header, name, header.len() as int))
    } else {
        None
    }
}

/// The least place below `upto` at which `name` stands in `header`, or
/// `upto` where there is none.
pub open spec fn first_position(header: Seq<Seq<char>>, name: Seq<char>, upto: int) -> int
    decreases upto,
{
    if upto <= 0 {
        0
    } else {
        let before = first_position(header, name, upto - 1);
        if before < upto - 1 {
            before
        } else if header[upto - 1] == name {
            upto - 1
        } else {
            upto
        }
    }
}

/// The first position is a place where the name stands and before which it
/// does not, or the end where it stands nowhere.
pub proof fn first_position_is_first(header: Seq<Seq<char>>, name: Seq<char>, upto: int)
    requires
        0 <= upto <= header.len(),
    ensures
        0 <= first_position(header, name, upto) <= upto,
        first_position(header, name, upto) < upto ==> header[first_position(header, name, upto)]
            == name,
        forall|i: int| 0 <= i < first_position(header, name, upto) ==> header[i] != name,
    decreases upto,
{
    if upto > 0 {
        first_position_is_first(header, name, upto - 1);
    }
}

/// Finds the first column of a header with the given name.
pub fn find_column(header: &[String], name: &str) -> (found: Option<usize>)
    ensures
        match found {
            Some(i) => position(strings(header@), name@) == Some(i as int) && i < header.len()
                && header[i as int]@ == name@,
            None => position(strings(header@), name@) is None,
        },
{
    let ghost names = strings(header@);
    let mut i: usize = 0;
    while i < header.len()
        invariant
            i <= header.len(),
            names == strings(header@),
            forall|k: int| 0 <= k < i ==> names[k] != name@,
        decreases header.len() - i,
    {
        if same_text(header[i].as_str(), name) {
            proof {
                first_position_is_first(names, name@, names.len() as int);
                assert(names[i as int] == name@);
                let f = first_position(names, name@, names.len() as int);
                if f > i {
                    assert(names[i as int] != name@);
                }
                if f < i {
                    assert(names[f] == name@);
                }
            }
            return Some(i);
        }
        i += 1;
    }
    None
}

/// Where a column of the training data comes from.
#[derive(Clone, Debug)]
pub enum Source {
    /// From a column of classes: one where the cell holds the level, zero
    /// where it holds another, missing where it holds no data.
    Level { column: usize, level: String },
    /// From a column of numbers: the number in the cell, missing where it
    /// holds no data.
    Number { column: usize },
}

impl Source {
    /// The column of the input table that is read.
    pub open spec fn column(self) -> int {
        match self {
            Source::Level { column, level } => column as int,
            Source::Number { column } => column as int,
        }
    }

    /// The number that a record gives to the column of the training data,
    /// or nothing where the cell should hold a number and does not.
    pub open spec fn value(self, record: Record, no_data: Seq<char>) -> Option<Num> {
        let cell = record.cells[self.column()]@;
        if cell == no_data {
            Some(Num { bits: crate::num::MISSING })
        } else {
            match self {
                Source::Level { column, level } => if cell == level@ {
                    Some(Num { bits: ONE })
                } else {
                    Some(Num { bits: 0 })
                },
                Source::Number { column } => record.numbers[column as int],
            }
        }
    }

    /// The number that a record gives to the column of the training data,
    /// or nothing where the cell should hold a number and does not.
    pub fn read(&self, record: &Record, no_data: &str) -> (v: Option<Num>)
        requires
            self.column() < record.cells.len(),
            self.column() < record.numbers.len(),
        ensures
            v == self.value(*record, no_data@),
    {
        match self {
            Source::Level { column, level } => {
                let cell = record.cells[*column].as_str();
                if same_text(cell, no_data) {
                    Some(Num::nan())
                } else if same_text(cell, level.as_str()) {
                    Some(Num::one())
                } else {
                    Some(Num::zero())
                }
            },
            Source::Number { column } => {
                let cell = record.cells[*column].as_str();
                if same_text(cell, no_data) {
                    Some(Num::nan())
                } else {
                    record.numbers[*column]
                }
            },
        }
    }
}

/// The name of the column of the training data that stands for one level
/// of a column of classes.
pub open spec fn level_name(column: Seq<char>, level: Seq<char>) -> Seq<char> {
    column + ":"@ + level
}

/// Whether a layer of the training data, whose columns begin at `start`, is
/// laid out as its input layer asks: classes get one column for each level,
/// numbers one for each input column.
pub open spec fn fits_layer(
    header_len: usize,
    input: InputLayer,
    levels: Seq<String>,
    layer: Layer,
    start: int,
    names: Seq<String>,
    sources: Seq<Source>,
) -> bool {
    &&& input.valid()
    &&& input.indices is Some
    &&& input.indices->0.len() == input.names.len()
    &&& forall|j: int| 0 <= j < input.names.len() ==> (#[trigger] input.indices->0[j]) < header_len
    &&& input.num_columns == Some(layer.ncols)
    &&& layer.weight == input.weight
    &&& layer.categorical == input.is_class
    &&& layer.metric == input.metric
    &&& layer.ncols == if input.is_class {
        levels.len()
    } else {
        input.names@.len()
    }
    &&& (!input.is_class ==> levels.len() == 0)
    &&& forall|j: int|
        0 <= j < layer.ncols ==> {
            &&& (#[trigger] sources[start + j]) == if input.is_class {
                Source::Level { column: input.indices->0[0], level: levels[j] }
            } else {
                Source::Number { column: input.indices->0[j] }
            }
            &&& names[start + j]@ == if input.is_class {
                level_name(input.names[0]@, levels[j]@)
            } else {
                input.names[j]@
            }
        }
}

/// Whether two input layers say the same.
pub open spec fn same_input(a: InputLayer, b: InputLayer) -> bool {
    &&& mirrors(a, b)
    &&& a.num_columns == b.num_columns
    &&& match (a.indices, b.indices) {
        (Some(x), Some(y)) => x@ == y@,
        (None, None) => true,
        _ => false,
    }
}

/// Whether an input layer of a schema is the given input layer, with its
/// columns found.
pub open spec fn mirrors(found: InputLayer, input: InputLayer) -> bool {
    &&& found.names@ == input.names@
    &&& found.weight == input.weight
    &&& found.is_class == input.is_class
    &&& found.metric == input.metric
    &&& found.norm == input.norm
    &&& found.scale == input.scale
}

/// The schema of the training data: what the layers of an input table
/// become, column by column.
#[derive(Clone, Debug)]
pub struct Schema {
    /// The number of columns of the input table.
    pub header_len: usize,
    /// The input layers, with the places of their columns in the header and
    /// their number of columns in the training data.
    pub input_layers: Vec<InputLayer>,
    /// For each layer of classes its levels; nothing for a layer of numbers.
    pub levels: Vec<Vec<String>>,
    /// The layers of the training data; their weights are those of the
    /// input layers.
    pub layers: Vec<Layer>,
    /// The names of the columns of the training data.
    pub names: Vec<String>,
    /// Where each column of the training data comes from.
    pub sources: Vec<Source>,
    /// The places of the preserved columns in the header.
    pub preserve_indices: Vec<usize>,
    /// The place of the label column in the header.
    pub label_index: Option<usize>,
}

impl Schema {
    /// Whether layer `l` is laid out as its input layer asks: classes get
    /// one column for each level, numbers one for each input column.
    pub open spec fn layer_fits(self, l: int) -> bool {
        fits_layer(
            self.header_len,
            self.input_layers[l],
            self.levels[l]@,
            self.layers[l],
            width_before(self.layers@, l),
            self.names@,
            self.sources@,
        )
    }

    /// The schema is laid out as its input layers ask.
    pub open spec fn wf(self) -> bool {
        &&& self.levels.len() == self.input_layers.len()
        &&& self.layers.len() == self.input_layers.len()
        &&& total_width(self.layers@) <= usize::MAX
        &&& self.names.len() == total_width(self.layers@)
        &&& self.sources.len() == total_width(self.layers@)
        &&& forall|l: int| 0 <= l < self.layers.len() ==> self.layer_fits(l)
        &&& forall|i: int|
            0 <= i < self.preserve_indices.len() ==> (#[trigger] self.preserve_indices[i])
                < self.header_len
        &&& (self.label_index matches Some(i) ==> i < self.header_len)
    }

    /// Whether the schema is that of an input table with this header and
    /// these records: every column stands where the header first names it,
    /// and the levels of a layer of classes are those of its column.
    pub open spec fn reads(
        self,
        header: Seq<Seq<char>>,
        records: Seq<Record>,
        no_data: Seq<char>,
    ) -> bool {
        &&& self.header_len == header.len()
        &&& forall|l: int, j: int|
            0 <= l < self.input_layers.len() && 0 <= j < self.input_layers[l].names.len()
                ==> position(header, self.input_layers[l].names[j]@) == Some(
                (#[trigger] self.input_layers[l].indices->0[j]) as int,
            )
        &&& forall|l: int|
            0 <= l < self.input_layers.len() && (#[trigger] self.input_layers[l]).is_class
                ==> is_levels(
                strings(self.levels[l]@),
                column_texts(records, self.input_layers[l].indices->0[0] as int),
                no_data,
            )
    }
}

/// Finds the columns of a header with the given names. Fails with the place
/// of the first name that the header does not hold.
pub fn resolve(header: &[String], names: &Vec<String>) -> (r: Result<Vec<usize>, usize>)
    ensures
        r matches Ok(indices) ==> {
            &&& indices.len() == names.len()
            &&& forall|j: int|
                0 <= j < names.len() ==> position(strings(header@), names[j]@) == Some(
                    (#[trigger] indices[j]) as int,
                ) && indices[j] < header.len()
        },
        r matches Err(j) ==> first_lacking(
            strings(header@),
            strings(names@),
            j as int,
            names[j as int]@,
        ),
{
    let mut indices: Vec<usize> = Vec::new();
    let mut j: usize = 0;
    while j < names.len()
        invariant
            j <= names.len(),
            indices.len() == j,
            forall|k: int|
                0 <= k < j ==> position(strings(header@), names[k]@) == Some(
                    (#[trigger] indices[k]) as int,
                ) && indices[k] < header.len(),
            forall|k: int|
                0 <= k < j ==> position(strings(header@), #[trigger] strings(names@)[k]) is Some,
        decreases names.len() - j,
    {
        assert(strings(names@)[j as int] == names[j as int]@);
        match find_column(header, names[j].as_str()) {
            Some(i) => {
                indices.push(i);
            },
            None => {
                return Err(j);
            },
        }
        j += 1;
    }
    Ok(indices)
}

/// Whether `name` stands at place `j` of `names` and is the first of them
/// that the header does not hold.
pub open spec fn first_lacking(
    header: Seq<Seq<char>>,
    names: Seq<Seq<char>>,
    j: int,
    name: Seq<char>,
) -> bool {
    &&& 0 <= j < names.len()
    &&& names[j] == name
    &&& position(header, name) is None
    &&& forall|k: int| 0 <= k < j ==> position(header, #[trigger] names[k]) is Some
}

/// The width before a layer does not depend on the layers after it.
pub proof fn width_before_ignores_later(layers: Seq<Layer>, more: Seq<Layer>, n: int)
    requires
        0 <= n <= layers.len(),
        layers.len() <= more.len(),
        forall|i: int| 0 <= i < layers.len() ==> layers[i] == more[i],
    ensures
        width_before(layers, n) == width_before(more, n),
    decreases n,
{
    if n > 0 {
        width_before_ignores_later(layers, more, n - 1);
    }
}

/// Every column of the training data reads a column of the header.
pub proof fn source_reads_inside(schema: Schema, c: int)
    requires
        schema.wf(),
        0 <= c < schema.sources.len(),
    ensures
        0 <= schema.sources[c].column() < schema.header_len,
{
    let l = layer_of_column(schema.layers@, c, schema.layers.len() as int);
    assert(schema.layer_fits(l));
    let j = c - width_before(schema.layers@, l);
    assert(schema.sources[width_before(schema.layers@, l) + j] == schema.sources[c]);
}

/// The layer whose columns hold column `c`, among the first `n` layers.
pub proof fn layer_of_column(layers: Seq<Layer>, c: int, n: int) -> (l: int)
    requires
        0 <= n <= layers.len(),
        0 <= c < width_before(layers, n),
    ensures
        0 <= l < n,
        width_before(layers, l) <= c < width_before(layers, l) + layers[l].ncols,
    decreases n,
{
    if c >= width_before(layers, n - 1) {
        n - 1
    } else {
        layer_of_column(layers, c, n - 1)
    }
}

} // verus!
