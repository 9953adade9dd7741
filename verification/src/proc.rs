//! Pre- and post-processing of SOM training data, SOM creation.
//!
//! A [`ProcessorBuilder`] reads an input table, given as its header and its
//! records, in two passes: [`ProcessorBuilder::schema`] finds the columns
//! and the levels of the classes, [`ProcessorBuilder::encode`] turns the
//! records into rows of numbers. [`ProcessorBuilder::build_from_records`]
//! does both and hands out a [`Processor`] with the data as it was read.
//! The user normalizes the data and puts the result in its place with
//! [`Processor::normalized`]. After training, the processor decodes classes
//! ([`Processor::to_class`]) and lays out the result tables (see
//! [`tables`]).

pub mod levels;
pub mod schema;
pub mod tables;

use crate::calc::metric::Metric;
use crate::calc::neighborhood::Neighborhood;
use crate::calc::norm::{LinearTransform, Norm};
use crate::data::{owned_names, strings, texts, DataFrame};
use crate::map::som::{
    epochs_fit, layer_lies_inside, total_width, width_before, DecayParam, Layer, Som, SomParams,
};
use crate::num::{all_missing, argmax, first_greatest, first_greatest_is_unique, Num, ONE};
use crate::proc::levels::{collect_levels, column_texts, is_levels};
use crate::proc::schema::{
    find_column, first_lacking, fits_layer, layer_of_column, level_name, mirrors, position,
    resolve, same_input, source_reads_inside, width_before_ignores_later, Schema, Source,
};
use crate::{ConfigError, DataTypeError};
use vstd::prelude::*;

verus! {

/// Layer definition for input tables.
#[derive(Clone, Debug)]
pub struct InputLayer {
    /// The columns of the input table that make up the layer.
    pub names: Vec<String>,
    /// The places of those columns in the table's header, once known.
    pub indices: Option<Vec<usize>>,
    /// The number of columns of the layer in the training data, once known.
    pub num_columns: Option<usize>,
    /// The weight of the layer among all layers.
    pub weight: Num,
    /// Whether the layer holds classes.
    pub is_class: bool,
    /// The distance metric of the layer.
    pub metric: Metric,
    /// The normalization of the layer's columns.
    pub norm: Norm,
    /// The scale of the layer's columns after normalization.
    pub scale: Num,
}

impl InputLayer {
    /// A layer of classes has one column and is not normalized.
    pub open spec fn valid(self) -> bool {
        self.is_class ==> self.names.len() == 1 && self.norm == Norm::Plain
    }

    /// The metric of a layer that names none: Tanimoto for classes,
    /// Euclidean for numbers.
    pub open spec fn default_metric(is_class: bool) -> Metric {
        if is_class {
            Metric::Tanimoto
        } else {
            Metric::Euclidean
        }
    }

    /// Creates a new input layer definition.
    pub fn new(names: &[&str], weight: Num, is_class: bool, norm: Norm, scale: Option<Num>) -> (l:
        Self)
        requires
            names.len() == 1 || !is_class,
            norm == Norm::Plain || !is_class,
        ensures
            l.valid(),
            strings(l.names@) == crate::data::texts(names@),
            l.indices is None,
            l.num_columns is None,
            l.weight == weight,
            l.is_class == is_class,
            l.metric == Self::default_metric(is_class),
            l.norm == norm,
            l.scale == match scale {
                Some(s) => s,
                None => Num { bits: ONE },
            },
    {
        InputLayer {
            names: owned_names(names),
            indices: None,
            num_columns: None,
            weight,
            is_class,
            metric: if is_class {
                Metric::Tanimoto
            } else {
                Metric::Euclidean
            },
            norm,
            scale: match scale {
                Some(s) => s,
                None => Num::one(),
            },
        }
    }

    /// Creates a new categorical input layer definition.
    pub fn cat(name: &str, weight: Num) -> (l: Self)
        ensures
            l.valid(),
            strings(l.names@) == seq![name@],
            l.indices is None,
            l.num_columns is None,
            l.weight == weight,
            l.is_class,
            l.metric == Metric::Tanimoto,
            l.norm == Norm::Plain,
            l.scale == (Num { bits: ONE }),
    {
        let mut names: Vec<String> = Vec::new();
        names.push(name.to_owned());
        assert(strings(names@) =~= seq![name@]);
        InputLayer {
            names,
            indices: None,
            num_columns: None,
            weight,
            is_class: true,
            metric: Metric::Tanimoto,
            norm: Norm::Plain,
            scale: Num::one(),
        }
    }

    /// Creates a new categorical input layer definition with default weight.
    pub fn cat_simple(name: &str) -> (l: Self)
        ensures
            l.valid(),
            strings(l.names@) == seq![name@],
            l.indices is None,
            l.num_columns is None,
            l.weight == (Num { bits: ONE }),
            l.is_class,
            l.metric == Metric::Tanimoto,
            l.norm == Norm::Plain,
            l.scale == (Num { bits: ONE }),
    {
        Self::cat(name, Num::one())
    }

    /// Creates a new continuous (non-categorical) input layer definition.
    pub fn cont(names: &[&str], weight: Num, norm: Norm, scale: Option<Num>) -> (l: Self)
        ensures
            l.valid(),
            strings(l.names@) == crate::data::texts(names@),
            l.indices is None,
            l.num_columns is None,
            l.weight == weight,
            !l.is_class,
            l.metric == Metric::Euclidean,
            l.norm == norm,
            l.scale == match scale {
                Some(s) => s,
                None => Num { bits: ONE },
            },
    {
        Self::new(names, weight, false, norm, scale)
    }

    /// Creates a new continuous (non-categorical) input layer definition
    /// with default weight and Gaussian normalization.
    pub fn cont_simple(names: &[&str]) -> (l: Self)
        ensures
            l.valid(),
            strings(l.names@) == crate::data::texts(names@),
            l.indices is None,
            l.num_columns is None,
            l.weight == (Num { bits: ONE }),
            !l.is_class,
            l.metric == Metric::Euclidean,
            l.norm == Norm::Gauss,
            l.scale == (Num { bits: ONE }),
    {
        Self::new(names, Num::one(), false, Norm::Gauss, None)
    }

    /// The same layer with another distance metric.
    pub fn with_metric(self, metric: Metric) -> (l: Self)
        ensures
            l == (InputLayer { metric, ..self }),
    {
        let mut l = self;
        l.metric = metric;
        l
    }
}

/// Csv file options
#[derive(Clone, Debug)]
pub struct CsvOptions {
    /// The byte between two cells of a record.
    pub delimiter: u8,
    /// The text of a cell without data.
    pub no_data: String,
}

/// One record of an input table: its cells as they were read, and for each
/// cell the number that it reads as, if it reads as one.
#[derive(Clone, Debug)]
pub struct Record {
    pub cells: Vec<String>,
    pub numbers: Vec<Option<Num>>,
}

impl Record {
    /// Whether the record has the given number of cells, and something on
    /// each cell's number.
    pub open spec fn fits(self, width: nat) -> bool {
        self.cells.len() == width && self.numbers.len() == width
    }
}

/// What goes wrong when an input table is read.
#[derive(Clone, Debug, PartialEq, Eq)]
pub enum ProcError {
    /// A column that a layer, the preserved columns or the labels name is
    /// not in the header.
    Schema { column: String },
    /// A cell of a column of numbers holds data that is no number: the
    /// text of the cell, the name of the column, and the place of the
    /// record among the records.
    Parse { value: String, column: String, record: usize },
}

impl ProcError {
    /// The message.
    pub fn to_string(&self) -> (s: String)
        ensures
            s@ == match self {
                ProcError::Schema { column } => "Column not found: "@ + column@,
                ProcError::Parse { value, column, record } => "Unable to parse value "@ + value@
                    + " in column "@ + column@ + " of record "@ + crate::text::decimal(
                    *record as nat,
                ),
            },
    {
        match self {
            ProcError::Schema { column } => String::from_str("Column not found: ").concat(
                column.as_str(),
            ),
            ProcError::Parse { value, column, record } => String::from_str(
                "Unable to parse value ",
            ).concat(value.as_str()).concat(" in column ").concat(column.as_str()).concat(
                " of record ",
            ).concat(crate::text::decimal_text(*record).as_str()),
        }
    }
}

/// Copies a list of texts.
pub fn copy_texts(texts: &Vec<String>) -> (copy: Vec<String>)
    ensures
        copy@ == texts@,
{
    let mut copy: Vec<String> = Vec::new();
    let mut i: usize = 0;
    while i < texts.len()
        invariant
            i <= texts.len(),
            copy.len() == i,
            forall|k: int| 0 <= k < i ==> copy[k] == texts[k],
        decreases texts.len() - i,
    {
        copy.push(texts[i].clone());
        i += 1;
    }
    assert(copy@ =~= texts@);
    copy
}

/// Copies a list of places.
pub fn copy_indices(indices: &Vec<usize>) -> (copy: Vec<usize>)
    ensures
        copy@ == indices@,
{
    let mut copy: Vec<usize> = Vec::new();
    let mut i: usize = 0;
    while i < indices.len()
        invariant
            i <= indices.len(),
            copy.len() == i,
            forall|k: int| 0 <= k < i ==> copy[k] == indices[k],
        decreases indices.len() - i,
    {
        copy.push(indices[i]);
        i += 1;
    }
    assert(copy@ =~= indices@);
    copy
}

/// Borrows a list of names.
pub fn borrow_names(names: &[String]) -> (borrowed: Vec<&str>)
    ensures
        texts(borrowed@) == strings(names@),
        borrowed.len() == names.len(),
{
    let mut borrowed: Vec<&str> = Vec::new();
    let mut i: usize = 0;
    while i < names.len()
        invariant
            i <= names.len(),
            borrowed.len() == i,
            forall|k: int| 0 <= k < i ==> borrowed[k]@ == names[k]@,
        decreases names.len() - i,
    {
        borrowed.push(names[i].as_str());
        i += 1;
    }
    assert(texts(borrowed@) =~= strings(names@));
    borrowed
}

/// Builder for [`Processor`].
#[derive(Clone, Debug)]
pub struct ProcessorBuilder {
    pub input_layers: Vec<InputLayer>,
    pub preserve: Vec<String>,
    pub labels: Option<String>,
    pub label_length: Option<usize>,
    pub csv_options: CsvOptions,
}

impl ProcessorBuilder {
    /// Whether an input table with this header holds every column that the
    /// layers, the preserved columns and the labels name.
    pub open spec fn finds_all(self, header: Seq<Seq<char>>) -> bool {
        &&& forall|l: int, j: int|
            0 <= l < self.input_layers.len() && 0 <= j < self.input_layers[l].names.len()
                ==> position(header, #[trigger] self.input_layers[l].names[j]@) is Some
        &&& forall|i: int|
            0 <= i < self.preserve.len() ==> position(header, #[trigger] self.preserve[i]@) is Some
        &&& (self.labels matches Some(name) ==> position(header, name@) is Some)
    }

    /// Whether the header holds every column of the first `n` layers.
    pub open spec fn finds_layers(self, header: Seq<Seq<char>>, n: int) -> bool {
        forall|l: int, j: int|
            0 <= l < n && 0 <= j < self.input_layers[l].names.len() ==> position(
                header,
                #[trigger] self.input_layers[l].names[j]@,
            ) is Some
    }

    /// Whether the header holds every preserved column.
    pub open spec fn finds_preserved(self, header: Seq<Seq<char>>) -> bool {
        forall|i: int|
            0 <= i < self.preserve.len() ==> position(header, #[trigger] self.preserve[i]@) is Some
    }

    /// Whether `name` is the first column that the header lacks: of the
    /// columns of the layers, layer after layer; if it lacks none of those,
    /// of the preserved columns; and if none of those either, the label
    /// column.
    pub open spec fn lacks_first(self, header: Seq<Seq<char>>, name: Seq<char>) -> bool {
        ||| exists|l: int, j: int|
            0 <= l < self.input_layers.len() && self.finds_layers(header, l)
                && #[trigger] first_lacking(
                header,
                strings(self.input_layers[l].names@),
                j,
                name,
            )
        ||| self.finds_layers(header, self.input_layers.len() as int) && exists|i: int|
            #[trigger] first_lacking(header, strings(self.preserve@), i, name)
        ||| {
            &&& self.finds_layers(header, self.input_layers.len() as int)
            &&& self.finds_preserved(header)
            &&& self.labels matches Some(label)
            &&& label@ == name
            &&& position(header, name) is None
        }
    }

    /// Whether a schema is the one that this builder reads from an input
    /// table with this header and these records.
    pub open spec fn reads(self, schema: Schema, header: Seq<Seq<char>>, records: Seq<Record>) ->
        bool {
        &&& schema.wf()
        &&& schema.reads(header, records, self.csv_options.no_data@)
        &&& schema.input_layers.len() == self.input_layers.len()
        &&& forall|l: int|
            0 <= l < self.input_layers.len() ==> mirrors(
                #[trigger] schema.input_layers[l],
                self.input_layers[l],
            )
        &&& schema.preserve_indices.len() == self.preserve.len()
        &&& forall|i: int|
            0 <= i < self.preserve.len() ==> position(header, self.preserve[i]@) == Some(
                (#[trigger] schema.preserve_indices[i]) as int,
            )
        &&& match self.labels {
            Some(name) => schema.label_index is Some && position(header, name@) == Some(
                schema.label_index->0 as int,
            ),
            None => schema.label_index is None,
        }
    }

    /// Creates a `ProcessorBuilder` for the given input layers.
    pub fn new(
        layers: &[InputLayer],
        preserve: &Vec<String>,
        label: &Option<String>,
        label_length: &Option<usize>,
    ) -> (b: Self)
        ensures
            b.input_layers.len() == layers.len(),
            forall|l: int|
                0 <= l < layers.len() ==> same_input(#[trigger] b.input_layers[l], layers[l]),
            b.preserve@ == preserve@,
            b.labels == *label,
            b.label_length == *label_length,
            b.csv_options.delimiter == 44u8,
            b.csv_options.no_data@ == "NA"@,
    {
        let mut input_layers: Vec<InputLayer> = Vec::new();
        let mut i: usize = 0;
        while i < layers.len()
            invariant
                i <= layers.len(),
                input_layers.len() == i,
                forall|k: int| 0 <= k < i ==> same_input(#[trigger] input_layers[k], layers[k]),
            decreases layers.len() - i,
        {
            let layer = &layers[i];
            input_layers.push(
                InputLayer {
                    names: copy_texts(&layer.names),
                    indices: match &layer.indices {
                        Some(ix) => Some(copy_indices(ix)),
                        None => None,
                    },
                    num_columns: layer.num_columns,
                    weight: layer.weight,
                    is_class: layer.is_class,
                    metric: layer.metric,
                    norm: layer.norm,
                    scale: layer.scale,
                },
            );
            i += 1;
        }
        ProcessorBuilder {
            input_layers,
            preserve: copy_texts(preserve),
            labels: match label {
                Some(name) => Some(name.clone()),
                None => None,
            },
            label_length: *label_length,
            csv_options: CsvOptions { delimiter: 44u8, no_data: "NA".to_owned() },
        }
    }

    /// The first pass over an input table: finds the columns that the
    /// layers, the preserved columns and the labels name, collects the levels
    /// of each layer of classes, and lays out the columns of the training
    /// data. Fails when the header lacks a column that is named.
    pub fn schema(&self, header: &[String], records: &[Record]) -> (r: Result<Schema, ProcError>)
        requires
            forall|l: int| 0 <= l < self.input_layers.len() ==>
                (#[trigger] self.input_layers[l]).valid(),
            forall|k: int| 0 <= k < records.len() ==>
                (#[trigger] records[k]).fits(header.len() as nat),
        ensures
            r is Ok <==> self.finds_all(strings(header@)),
            r matches Ok(schema) ==> self.reads(schema, strings(header@), records@),
            r matches Err(e) ==> e matches ProcError::Schema { column } && self.lacks_first(
                strings(header@),
                column@,
            ),
    {
        let ghost head = strings(header@);
        let no_data = self.csv_options.no_data.as_str();
        let mut found: Vec<InputLayer> = Vec::new();
        let mut levels: Vec<Vec<String>> = Vec::new();
        let mut layers: Vec<Layer> = Vec::new();
        let mut names: Vec<String> = Vec::new();
        let mut sources: Vec<Source> = Vec::new();
        let mut l: usize = 0;
        while l < self.input_layers.len()
            invariant
                l <= self.input_layers.len(),
                head == strings(header@),
                no_data@ == self.csv_options.no_data@,
                forall|k: int|
                    0 <= k < self.input_layers.len() ==> (#[trigger] self.input_layers[k]).valid(),
                forall|k: int|
                    0 <= k < records.len() ==> (#[trigger] records[k]).fits(header.len() as nat),
                found.len() == l,
                levels.len() == l,
                layers.len() == l,
                names.len() == width_before(layers@, l as int),
                sources.len() == names.len(),
                forall|k: int|
                    0 <= k < l ==> fits_layer(
                        header.len(),
                        #[trigger] found[k],
                        levels[k]@,
                        layers[k],
                        width_before(layers@, k),
                        names@,
                        sources@,
                    ),
                forall|k: int| 0 <= k < l ==> mirrors(#[trigger] found[k], self.input_layers[k]),
                forall|k: int, j: int|
                    0 <= k < l && 0 <= j < found[k].names.len() ==> position(
                        head,
                        found[k].names[j]@,
                    ) == Some((#[trigger] found[k].indices->0[j]) as int),
                forall|k: int|
                    0 <= k < l && (#[trigger] found[k]).is_class ==> is_levels(
                        strings(levels[k]@),
                        column_texts(records@, found[k].indices->0[0] as int),
                        no_data@,
                    ),
            decreases self.input_layers.len() - l,
        {
            let input = &self.input_layers[l];
            let indices = match resolve(header, &input.names) {
                Ok(indices) => indices,
                Err(place) => {
                    let name = input.names[place].clone();
                    proof {
                        let j = place as int;
                        assert(strings(input.names@)[j] == input.names[j]@);
                        assert(self.input_layers[l as int].names[j]@ == name@);
                        assert(position(head, self.input_layers[l as int].names[j]@) is None);
                        assert(self.finds_layers(head, l as int)) by {
                            assert forall|k: int, i: int|
                                0 <= k < l && 0 <= i < self.input_layers[k].names.len() implies
                                    position(
                                head,
                                #[trigger] self.input_layers[k].names[i]@,
                            ) is Some by {
                                assert(mirrors(found[k], self.input_layers[k]));
                                assert(position(head, found[k].names[i]@) == Some(
                                    found[k].indices->0[i] as int,
                                ));
                            }
                        }
                        assert(first_lacking(
                            head,
                            strings(self.input_layers[l as int].names@),
                            j,
                            name@,
                        ));
                    }
                    return Err(ProcError::Schema { column: name });
                },
            };
            let layer_levels: Vec<String> = if input.is_class {
                collect_levels(records, indices[0], no_data)
            } else {
                Vec::new()
            };
            let width = if input.is_class {
                layer_levels.len()
            } else {
                input.names.len()
            };
            let start = names.len();
            let ghost old_names = names@;
            let ghost old_sources = sources@;
            let ghost old_layers = layers@;
            let mut j: usize = 0;
            while j < width
                invariant
                    j <= width,
                    input.valid(),
                    indices.len() == input.names.len(),
                    width == if input.is_class {
                        layer_levels.len()
                    } else {
                        input.names.len()
                    },
                    names.len() == start + j,
                    sources.len() == start + j,
                    forall|k: int| 0 <= k < start ==> names[k] == old_names[k],
                    forall|k: int| 0 <= k < start ==> sources[k] == old_sources[k],
                    forall|k: int|
                        0 <= k < j ==> {
                            &&& (#[trigger] sources[start + k]) == if input.is_class {
                                Source::Level { column: indices[0], level: layer_levels[k] }
                            } else {
                                Source::Number { column: indices[k] }
                            }
                            &&& names[start + k]@ == if input.is_class {
                                level_name(input.names[0]@, layer_levels[k]@)
                            } else {
                                input.names[k]@
                            }
                        },
                decreases width - j,
            {
                if input.is_class {
                    names.push(
                        input.names[0].clone().concat(":").concat(layer_levels[j].as_str()),
                    );
                    sources.push(
                        Source::Level { column: indices[0], level: layer_levels[j].clone() },
                    );
                } else {
                    names.push(input.names[j].clone());
                    sources.push(Source::Number { column: indices[j] });
                }
                j += 1;
            }
            let layer = Layer::new(width, input.weight, input.is_class, input.metric);
            layers.push(layer);
            let ghost ix = indices@;
            found.push(
                InputLayer {
                    names: copy_texts(&input.names),
                    indices: Some(indices),
                    num_columns: Some(width),
                    weight: input.weight,
                    is_class: input.is_class,
                    metric: input.metric,
                    norm: input.norm,
                    scale: input.scale,
                },
            );
            levels.push(layer_levels);
            proof {
                let n = l as int;
                assert forall|k: int| 0 <= k <= n implies width_before(layers@, k) == width_before(
                    old_layers,
                    k,
                ) by {
                    width_before_ignores_later(old_layers, layers@, k);
                }
                assert(width_before(layers@, n + 1) == width_before(layers@, n) + layers[n].ncols);
                assert forall|k: int| 0 <= k < n + 1 implies fits_layer(
                    header.len(),
                    #[trigger] found[k],
                    levels[k]@,
                    layers[k],
                    width_before(layers@, k),
                    names@,
                    sources@,
                ) by {
                    if k < n {
                        layer_lies_inside(old_layers, k);
                        assert(layers[k] == old_layers[k]);
                        assert forall|j: int| 0 <= j < layers[k].ncols implies {
                            &&& (#[trigger] sources[width_before(layers@, k) + j])
                                == old_sources[width_before(layers@, k) + j]
                            &&& names[width_before(layers@, k) + j] == old_names[width_before(
                                layers@,
                                k,
                            ) + j]
                        } by {}
                    }
                }
            }
            l += 1;
        }
        proof {
            assert forall|k: int, j: int|
                0 <= k < self.input_layers.len()
                    && 0 <= j < self.input_layers[k].names.len() implies position(
                head,
                #[trigger] self.input_layers[k].names[j]@,
            ) is Some by {
                assert(mirrors(found[k], self.input_layers[k]));
                assert(position(head, found[k].names[j]@) == Some(found[k].indices->0[j] as int));
            }
        }
        let preserve_indices = match resolve(header, &self.preserve) {
            Ok(indices) => indices,
            Err(place) => {
                let name = self.preserve[place].clone();
                proof {
                    let i = place as int;
                    assert(strings(self.preserve@)[i] == self.preserve[i]@);
                    assert(first_lacking(head, strings(self.preserve@), i, name@));
                    assert(position(head, self.preserve[i]@) is None);
                }
                return Err(ProcError::Schema { column: name });
            },
        };
        proof {
            assert forall|i: int| 0 <= i < self.preserve.len() implies position(
                head,
                #[trigger] self.preserve[i]@,
            ) is Some by {
                assert(position(head, self.preserve[i]@) == Some(preserve_indices[i] as int));
            }
        }
        let label_index = match &self.labels {
            Some(name) => match find_column(header, name.as_str()) {
                Some(i) => Some(i),
                None => {
                    return Err(ProcError::Schema { column: name.clone() });
                },
            },
            None => None,
        };
        proof {
            assert forall|k: int, j: int|
                0 <= k < self.input_layers.len()
                    && 0 <= j < self.input_layers[k].names.len() implies position(
                head,
                #[trigger] self.input_layers[k].names[j]@,
            ) is Some by {
                assert(mirrors(found[k], self.input_layers[k]));
                assert(position(head, found[k].names[j]@) == Some(found[k].indices->0[j] as int));
            }
            assert forall|i: int| 0 <= i < self.preserve.len() implies position(
                head,
                #[trigger] self.preserve[i]@,
            ) is Some by {
                assert(position(head, self.preserve[i]@) == Some(preserve_indices[i] as int));
            }
        }
        Ok(
            Schema {
                header_len: header.len(),
                input_layers: found,
                levels,
                layers,
                names,
                sources,
                preserve_indices,
                label_index,
            },
        )
    }

    /// Whether the training data is that of the records under a schema.
    pub open spec fn encodes(self, schema: Schema, records: Seq<Record>, encoding: Encoded) ->
        bool {
        let no_data = self.csv_options.no_data@;
        &&& encoding.data.wf()
        &&& encoding.data.names == strings(schema.names@)
        &&& encoding.data.ncols == schema.names.len()
        &&& encoding.data.nrows == records.len()
        &&& forall|r: int, c: int|
            0 <= r < records.len() && 0 <= c < schema.names.len() ==> schema.sources[c].value(
                records[r],
                no_data,
            ) == Some(#[trigger] encoding.data.row(r)[c])
        &&& encoding.preserved.len() == schema.preserve_indices.len()
        &&& forall|i: int|
            0 <= i < encoding.preserved.len() ==> (#[trigger] encoding.preserved[i]).len()
                == records.len()
        &&& forall|i: int, r: int|
            0 <= i < encoding.preserved.len() && 0 <= r < records.len()
                ==> (#[trigger] encoding.preserved[i][r])@
                == records[r].cells[schema.preserve_indices[i] as int]@
        &&& match schema.label_index {
            Some(column) => {
                &&& encoding.labels is Some
                &&& encoding.labels->0.len() == records.len()
                &&& forall|r: int|
                    0 <= r < records.len() ==> (#[trigger] encoding.labels->0[r])@ == truncated(
                        records[r].cells[column as int]@,
                        self.label_length,
                    )
            },
            None => encoding.labels is None,
        }
        &&& encoding.norm.len() == schema.names.len()
        &&& encoding.scale.len() == schema.names.len()
        &&& forall|l: int, j: int|
            0 <= l < schema.layers.len() && 0 <= j < schema.layers[l].ncols ==> {
                &&& (#[trigger] encoding.norm[width_before(schema.layers@, l) + j])
                    == schema.input_layers[l].norm
                &&& encoding.scale[width_before(schema.layers@, l) + j]
                    == schema.input_layers[l].scale
            }
    }

    /// The second pass over an input table: turns each record into a row
    /// of the training data and keeps the preserved columns and the labels.
    /// Fails at the first cell, record after record and column after column
    /// of the training data, that should hold a number and holds other text.
    pub fn encode(&self, schema: &Schema, records: &[Record]) -> (r: Result<Encoding, ProcError>)
        requires
            schema.wf(),
            forall|k: int| 0 <= k < records.len() ==>
                (#[trigger] records[k]).fits(schema.header_len as nat),
        ensures
            r is Ok <==> forall|k: int, c: int|
                0 <= k < records.len() && 0 <= c < schema.names.len() ==>
                    (#[trigger] schema.sources[c].value(
                    records[k],
                    self.csv_options.no_data@,
                )) is Some,
            r matches Ok(encoding) ==> self.encodes(*schema, records@, encoding@),
            r matches Err(e) ==> exists|c: int|
                reports(*schema, records@, self.csv_options.no_data@, e, c),
    {
        let no_data = self.csv_options.no_data.as_str();
        let width = schema.names.len();
        let columns = borrow_names(schema.names.as_slice());
        let mut data = DataFrame::empty(columns.as_slice());
        let mut k: usize = 0;
        while k < records.len()
            invariant
                k <= records.len(),
                schema.wf(),
                width == schema.names.len(),
                no_data@ == self.csv_options.no_data@,
                forall|i: int|
                    0 <= i < records.len() ==>
                        (#[trigger] records[i]).fits(schema.header_len as nat),
                data.wf(),
                data@.names == strings(schema.names@),
                data@.ncols == width,
                data@.nrows == k,
                forall|i: int, c: int|
                    0 <= i < k && 0 <= c < width ==> schema.sources[c].value(records[i], no_data@)
                        == Some(#[trigger] data@.row(i)[c]),
                forall|i: int, c: int|
                    0 <= i < k && 0 <= c < width ==> (#[trigger] schema.sources[c].value(
                        records[i],
                        no_data@,
                    )) is Some,
            decreases records.len() - k,
        {
            let record = &records[k];
            let mut row: Vec<Num> = Vec::new();
            let mut c: usize = 0;
            while c < width
                invariant
                    c <= width,
                    schema.wf(),
                    width == schema.names.len(),
                    record.fits(schema.header_len as nat),
                    *record == records[k as int],
                    row.len() == c,
                    k < records.len(),
                    no_data@ == self.csv_options.no_data@,
                    forall|i: int|
                        0 <= i < c ==> schema.sources[i].value(*record, no_data@) == Some(
                            #[trigger] row[i],
                        ),
                    forall|i: int|
                        0 <= i < c ==>
                            (#[trigger] schema.sources[i].value(*record, no_data@)) is Some,
                    forall|i: int, c: int|
                        0 <= i < k && 0 <= c < width ==> (#[trigger] schema.sources[c].value(
                            records[i],
                            no_data@,
                        )) is Some,
                decreases width - c,
            {
                proof {
                    source_reads_inside(*schema, c as int);
                }
                match schema.sources[c].read(record, no_data) {
                    Some(v) => {
                        row.push(v);
                    },
                    None => {
                        let column = match &schema.sources[c] {
                            Source::Level { column, level } => *column,
                            Source::Number { column } => *column,
                        };
                        let e = ProcError::Parse {
                            value: record.cells[column].clone(),
                            column: schema.names[c].clone(),
                            record: k,
                        };
                        proof {
                            assert(is_first_bad(*schema, records@, no_data@, k as int, c as int));
                            assert(reports(*schema, records@, no_data@, e, c as int));
                        }
                        return Err(e);
                    },
                }
                c += 1;
            }
            let ghost before = data@;
            data.push_row(row.as_slice());
            proof {
                assert forall|i: int, c: int| 0 <= i < k + 1 && 0 <= c < width implies
                    schema.sources[c].value(
                    records[i],
                    no_data@,
                ) == Some(#[trigger] data@.row(i)[c]) by {
                    if i < k {
                        assert(data@.row(i) == before.row(i));
                    }
                }
                assert forall|i: int, c: int| 0 <= i < k + 1 && 0 <= c < width implies
                    (#[trigger] schema.sources[c].value(
                    records[i],
                    no_data@,
                )) is Some by {
                    if i == k {
                        assert(schema.sources[c].value(*record, no_data@) is Some);
                    }
                }
            }
            k += 1;
        }
        let mut preserved: Vec<Vec<String>> = Vec::new();
        let mut i: usize = 0;
        while i < schema.preserve_indices.len()
            invariant
                i <= schema.preserve_indices.len(),
                schema.wf(),
                forall|k: int|
                    0 <= k < records.len() ==>
                        (#[trigger] records[k]).fits(schema.header_len as nat),
                preserved.len() == i,
                forall|x: int| 0 <= x < i ==> (#[trigger] preserved[x]).len() == records.len(),
                forall|x: int, k: int|
                    0 <= x < i && 0 <= k < records.len() ==> (#[trigger] preserved[x][k])@
                        == records[k].cells[schema.preserve_indices[x] as int]@,
            decreases schema.preserve_indices.len() - i,
        {
            let column = schema.preserve_indices[i];
            let mut values: Vec<String> = Vec::new();
            let mut k: usize = 0;
            while k < records.len()
                invariant
                    k <= records.len(),
                    column < schema.header_len,
                    forall|x: int|
                        0 <= x < records.len() ==> (#[trigger] records[x]).fits(
                            schema.header_len as nat,
                        ),
                    values.len() == k,
                    forall|x: int| 0 <= x < k ==>
                        (#[trigger] values[x])@ == records[x].cells[column as int]@,
                decreases records.len() - k,
            {
                values.push(records[k].cells[column].clone());
                k += 1;
            }
            preserved.push(values);
            i += 1;
        }
        let labels = match schema.label_index {
            Some(column) => {
                let mut labels: Vec<String> = Vec::new();
                let mut k: usize = 0;
                while k < records.len()
                    invariant
                        k <= records.len(),
                        column < schema.header_len,
                        forall|x: int|
                            0 <= x < records.len() ==> (#[trigger] records[x]).fits(
                                schema.header_len as nat,
                            ),
                        labels.len() == k,
                        forall|x: int|
                            0 <= x < k ==> (#[trigger] labels[x])@ == truncated(
                                records[x].cells[column as int]@,
                                self.label_length,
                            ),
                    decreases records.len() - k,
                {
                    labels.push(truncate(records[k].cells[column].as_str(), self.label_length));
                    k += 1;
                }
                Some(labels)
            },
            None => None,
        };
        let mut norm: Vec<Norm> = Vec::new();
        let mut scale: Vec<Num> = Vec::new();
        let mut l: usize = 0;
        while l < schema.layers.len()
            invariant
                l <= schema.layers.len(),
                schema.wf(),
                norm.len() == width_before(schema.layers@, l as int),
                scale.len() == norm.len(),
                forall|x: int, j: int|
                    0 <= x < l && 0 <= j < schema.layers[x].ncols ==> {
                        &&& (#[trigger] norm[width_before(schema.layers@, x) + j])
                            == schema.input_layers[x].norm
                        &&& scale[width_before(schema.layers@, x) + j]
                            == schema.input_layers[x].scale
                    },
            decreases schema.layers.len() - l,
        {
            let start = norm.len();
            let mut j: usize = 0;
            proof {
                assert(schema.layer_fits(l as int));
            }
            while j < schema.layers[l].ncols
                invariant
                    l < schema.layers.len(),
                    schema.layers.len() == schema.input_layers.len(),
                    j <= schema.layers[l as int].ncols,
                    start == width_before(schema.layers@, l as int),
                    norm.len() == start + j,
                    scale.len() == norm.len(),
                    forall|x: int, j: int|
                        0 <= x < l && 0 <= j < schema.layers[x].ncols ==> {
                            &&& (#[trigger] norm[width_before(schema.layers@, x) + j])
                                == schema.input_layers[x].norm
                            &&& scale[width_before(schema.layers@, x) + j]
                                == schema.input_layers[x].scale
                        },
                    forall|x: int|
                        0 <= x < j ==> {
                            &&& (#[trigger] norm[start + x]) == schema.input_layers[l as int].norm
                            &&& scale[start + x] == schema.input_layers[l as int].scale
                        },
                decreases schema.layers[l as int].ncols - j,
            {
                let ghost old_norm = norm@;
                let ghost old_scale = scale@;
                norm.push(schema.input_layers[l].norm);
                scale.push(schema.input_layers[l].scale);
                proof {
                    assert forall|x: int, j: int|
                        0 <= x < l && 0 <= j < schema.layers[x].ncols implies {
                        &&& (#[trigger] norm[width_before(schema.layers@, x) + j])
                            == schema.input_layers[x].norm
                        &&& scale[width_before(schema.layers@, x) + j]
                            == schema.input_layers[x].scale
                    } by {
                        layer_lies_inside(schema.layers@, x);
                        crate::map::som::width_before_grows(schema.layers@, x + 1, l as int);
                        assert(norm[width_before(schema.layers@, x) + j] == old_norm[width_before(
                            schema.layers@,
                            x,
                        ) + j]);
                    }
                }
                j += 1;
            }
            l += 1;
        }
        Ok(Encoding { data, preserved, labels, norm, scale })
    }

    /// Whether every cell that a layer of numbers reads holds a number or
    /// no data.
    pub open spec fn numbers_parse(self, header: Seq<Seq<char>>, records: Seq<Record>) -> bool {
        forall|k: int, l: int, j: int|
            0 <= k < records.len() && 0 <= l < self.input_layers.len()
                && !self.input_layers[l].is_class && 0 <= j < self.input_layers[l].names.len()
                ==> #[trigger] self.cell_parses(header, records[k], l, j)
    }

    /// Whether the cell of a record that column `j` of layer `l` reads
    /// holds a number or no data.
    pub open spec fn cell_parses(self, header: Seq<Seq<char>>, record: Record, l: int, j: int) ->
        bool {
        let column = position(header, self.input_layers[l].names[j]@)->0;
        record.cells[column]@ == self.csv_options.no_data@ || record.numbers[column] is Some
    }

    /// Whether a processor holds what this builder reads from an input
    /// table: its schema, the training data as it stands in the table, the
    /// preserved columns and the labels. Nothing is normalized yet: the
    /// layers have the weights of the input layers, and the transforms
    /// change nothing.
    pub open spec fn builds(
        self,
        processor: ProcessorView,
        header: Seq<Seq<char>>,
        records: Seq<Record>,
    ) -> bool {
        &&& processor.wf()
        &&& self.reads(processor.schema, header, records)
        &&& self.encodes(
            processor.schema,
            records,
            Encoded {
                data: processor.data,
                preserved: processor.preserved,
                labels: processor.labels,
                norm: processor.norm,
                scale: processor.scale,
            },
        )
        &&& processor.layers == processor.schema.layers@
        &&& processor.denorm == Seq::new(
            processor.data.ncols,
            |c: int| LinearTransform { scale: Num { bits: ONE }, offset: Num { bits: 0 } },
        )
        &&& processor.preserve_columns == self.preserve@
        &&& processor.no_data == self.csv_options.no_data@
        &&& processor.delimiter == self.csv_options.delimiter
    }

    /// Builds a [`Processor`] from the header and the records of an input
    /// table, in two passes over the records. Fails when the header lacks a
    /// column that is named, or else at the first cell of a layer of numbers
    /// that holds data and no number.
    pub fn build_from_records(self, header: &[String], records: &[Record]) -> (r: Result<
        Processor,
        ProcError,
    >)
        requires
            forall|l: int| 0 <= l < self.input_layers.len() ==>
                (#[trigger] self.input_layers[l]).valid(),
            forall|k: int| 0 <= k < records.len() ==>
                (#[trigger] records[k]).fits(header.len() as nat),
        ensures
            r is Ok <==> self.finds_all(strings(header@)) && self.numbers_parse(
                strings(header@),
                records@,
            ),
            r matches Ok(processor) ==> self.builds(processor@, strings(header@), records@),
            r matches Err(ProcError::Schema { column }) ==> !self.finds_all(strings(header@))
                && self.lacks_first(strings(header@), column@),
            r matches Err(ProcError::Parse { value, column, record }) ==> self.finds_all(
                strings(header@),
            ) && exists|schema: Schema, c: int|
                self.reads(schema, strings(header@), records@) && reports(
                    schema,
                    records@,
                    self.csv_options.no_data@,
                    ProcError::Parse { value, column, record },
                    c,
                ),
    {
        let ghost head = strings(header@);
        let schema = match self.schema(header, records) {
            Ok(schema) => schema,
            Err(e) => {
                return Err(e);
            },
        };
        let encoding = match self.encode(&schema, records) {
            Ok(encoding) => encoding,
            Err(e) => {
                proof {
                    let c = choose|c: int|
                        reports(schema, records@, self.csv_options.no_data@, e, c);
                    let k = e->Parse_record as int;
                    let l = layer_of_column(schema.layers@, c, schema.layers.len() as int);
                    assert(schema.layer_fits(l));
                    let j = c - width_before(schema.layers@, l);
                    assert(schema.sources[width_before(schema.layers@, l) + j]
                        == schema.sources[c]);
                    assert(mirrors(schema.input_layers[l], self.input_layers[l]));
                    assert(position(head, schema.input_layers[l].names[j]@) == Some(
                        schema.input_layers[l].indices->0[j] as int,
                    ));
                    assert(!self.cell_parses(head, records[k], l, j));
                }
                return Err(e);
            },
        };
        proof {
            assert forall|k: int, l: int, j: int|
                0 <= k < records.len() && 0 <= l < self.input_layers.len()
                    && !self.input_layers[l].is_class && 0 <= j
                    < self.input_layers[l].names.len() implies #[trigger] self.cell_parses(
                head,
                records[k],
                l,
                j,
            ) by {
                assert(schema.layer_fits(l));
                assert(mirrors(schema.input_layers[l], self.input_layers[l]));
                assert(position(head, schema.input_layers[l].names[j]@) == Some(
                    schema.input_layers[l].indices->0[j] as int,
                ));
                layer_lies_inside(schema.layers@, l);
                let c = width_before(schema.layers@, l) + j;
                assert(schema.sources[c] == Source::Number {
                    column: schema.input_layers[l].indices->0[j],
                });
                assert(schema.sources[c].value(records[k], self.csv_options.no_data@) is Some);
            }
        }
        let width = encoding.data.ncols();
        let mut denorm: Vec<LinearTransform> = Vec::new();
        let mut c: usize = 0;
        while c < width
            invariant
                c <= width,
                denorm.len() == c,
                forall|i: int|
                    0 <= i < c ==> denorm[i] == (LinearTransform {
                        scale: Num { bits: ONE },
                        offset: Num { bits: 0 },
                    }),
            decreases width - c,
        {
            denorm.push(LinearTransform::identity());
            c += 1;
        }
        assert(denorm@ =~= Seq::new(
            width as nat,
            |c: int| LinearTransform { scale: Num { bits: ONE }, offset: Num { bits: 0 } },
        ));
        let mut layers: Vec<Layer> = Vec::new();
        let mut l: usize = 0;
        while l < schema.layers.len()
            invariant
                l <= schema.layers.len(),
                layers.len() == l,
                forall|k: int| 0 <= k < l ==> layers[k] == schema.layers[k],
            decreases schema.layers.len() - l,
        {
            layers.push(schema.layers[l]);
            l += 1;
        }
        assert(layers@ =~= schema.layers@);
        proof {
            assert forall|l: int| 0 <= l < layers.len() implies {
                &&& (#[trigger] layers[l]).categorical == schema.input_layers[l].is_class
                &&& schema.input_layers[l].valid()
                &&& (layers[l].categorical ==> schema.levels[l].len() == layers[l].ncols)
            } by {
                assert(schema.layer_fits(l));
            }
        }
        Ok(
            Processor {
                schema,
                data: encoding.data,
                layers,
                preserve_columns: self.preserve,
                preserved: encoding.preserved,
                label_column: self.labels,
                labels: encoding.labels,
                norm: encoding.norm,
                denorm,
                scale: encoding.scale,
                csv_options: self.csv_options,
            },
        )
    }

    /// Sets the delimiter for CSV files. Default ','.
    pub fn with_delimiter(self, delimiter: u8) -> (b: Self)
        ensures
            b == (ProcessorBuilder {
                csv_options: CsvOptions { delimiter, no_data: self.csv_options.no_data },
                ..self
            }),
    {
        let mut b = self;
        b.csv_options.delimiter = delimiter;
        b
    }

    /// Sets the no-data value for CSV files. Default 'NA'.
    pub fn with_no_data(self, no_data: &str) -> (b: Self)
        ensures
            b.input_layers == self.input_layers,
            b.preserve == self.preserve,
            b.labels == self.labels,
            b.label_length == self.label_length,
            b.csv_options.delimiter == self.csv_options.delimiter,
            b.csv_options.no_data@ == no_data@,
    {
        let mut b = self;
        b.csv_options.no_data = no_data.to_owned();
        b
    }
}

/// The training data that is read from an input table, before it is
/// normalized.
#[derive(Clone, Debug)]
pub struct Encoding {
    /// The numbers: one row for each record.
    pub data: DataFrame,
    /// For each preserved column the cells of all records.
    pub preserved: Vec<Vec<String>>,
    /// The label of each record, where a label column is named.
    pub labels: Option<Vec<String>>,
    /// The normalization of each column of the training data.
    pub norm: Vec<Norm>,
    /// The scale of each column of the training data.
    pub scale: Vec<Num>,
}

/// What an [`Encoding`] holds.
pub struct Encoded {
    pub data: crate::data::Table,
    pub preserved: Seq<Vec<String>>,
    pub labels: Option<Vec<String>>,
    pub norm: Seq<Norm>,
    pub scale: Seq<Num>,
}

impl View for Encoding {
    type V = Encoded;

    open spec fn view(&self) -> Encoded {
        Encoded {
            data: self.data@,
            preserved: self.preserved@,
            labels: self.labels,
            norm: self.norm@,
            scale: self.scale@,
        }
    }
}

/// A label: the text of the cell, cut after `limit` characters where it is
/// longer.
pub open spec fn truncated(text: Seq<char>, limit: Option<usize>) -> Seq<char> {
    match limit {
        Some(n) => if text.len() > n {
            text.take(n as int)
        } else {
            text
        },
        None => text,
    }
}

/// Cuts a text after `limit` characters where it is longer.
pub fn truncate(text: &str, limit: Option<usize>) -> (label: String)
    ensures
        label@ == truncated(text@, limit),
{
    match limit {
        Some(n) => {
            if text.unicode_len() > n {
                let cut = text.substring_char(0, n);
                assert(text@.subrange(0, n as int) =~= text@.take(n as int));
                cut.to_owned()
            } else {
                text.to_owned()
            }
        },
        None => text.to_owned(),
    }
}

/// Whether the cell of record `r` that column `c` of the training data
/// reads is the first, record after record and column after column, that
/// should hold a number and does not.
pub open spec fn is_first_bad(
    schema: Schema,
    records: Seq<Record>,
    no_data: Seq<char>,
    r: int,
    c: int,
) -> bool {
    &&& 0 <= r < records.len()
    &&& 0 <= c < schema.names.len()
    &&& schema.sources[c].value(records[r], no_data) is None
    &&& forall|i: int, j: int|
        0 <= i < r && 0 <= j < schema.names.len() ==> (#[trigger] schema.sources[j].value(
            records[i],
            no_data,
        )) is Some
    &&& forall|j: int|
        0 <= j < c ==> (#[trigger] schema.sources[j].value(records[r], no_data)) is Some
}

/// Whether an error reports the first cell that should hold a number and
/// does not, read by column `c` of the training data: the text of the cell,
/// the name of that column, and the place of the record.
pub open spec fn reports(
    schema: Schema,
    records: Seq<Record>,
    no_data: Seq<char>,
    e: ProcError,
    c: int,
) -> bool {
    match e {
        ProcError::Parse { value, column, record } => {
            &&& is_first_bad(schema, records, no_data, record as int, c)
            &&& value@ == records[record as int].cells[schema.sources[c].column()]@
            &&& column@ == schema.names[c]@
        },
        ProcError::Schema { column } => false,
    }
}

/// What a [`Processor`] holds.
pub struct ProcessorView {
    /// The schema of the training data.
    pub schema: Schema,
    /// The training data.
    pub data: crate::data::Table,
    /// The layers of the training data.
    pub layers: Seq<Layer>,
    /// The names of the preserved columns.
    pub preserve_columns: Seq<String>,
    /// For each preserved column the cells of all records.
    pub preserved: Seq<Vec<String>>,
    /// The label of each record, where a label column is named.
    pub labels: Option<Vec<String>>,
    /// The normalization of each column of the training data.
    pub norm: Seq<Norm>,
    /// For each column the transform that takes the normalization back.
    pub denorm: Seq<LinearTransform>,
    /// The scale of each column of the training data.
    pub scale: Seq<Num>,
    /// The text of a cell without data.
    pub no_data: Seq<char>,
    /// The byte between two cells of a record.
    pub delimiter: u8,
}

impl ProcessorView {
    /// The input layers, with the places of their columns in the header.
    pub open spec fn input_layers(self) -> Seq<InputLayer> {
        self.schema.input_layers@
    }

    /// For each layer of classes its levels.
    pub open spec fn levels(self) -> Seq<Vec<String>> {
        self.schema.levels@
    }

    /// The parts fit together: the layers are those of the schema, but for
    /// their weights, and fill the columns of the data; each layer of classes
    /// has one column for each level; and there is a normalization and a
    /// transform for each column and a preserved cell and a label for each
    /// row.
    pub open spec fn wf(self) -> bool {
        &&& self.schema.wf()
        &&& self.data.wf()
        &&& self.data.names == strings(self.schema.names@)
        &&& self.layers.len() == self.input_layers().len()
        &&& self.levels().len() == self.input_layers().len()
        &&& total_width(self.layers) == self.data.ncols
        &&& forall|l: int|
            0 <= l < self.layers.len() ==> {
                &&& (#[trigger] self.layers[l]) == (Layer {
                    weight: self.layers[l].weight,
                    ..self.schema.layers[l]
                })
                &&& self.layers[l].categorical == self.input_layers()[l].is_class
                &&& self.input_layers()[l].valid()
                &&& (self.layers[l].categorical ==> self.levels()[l].len() == self.layers[l].ncols)
            }
        &&& self.norm.len() == self.data.ncols
        &&& self.denorm.len() == self.data.ncols
        &&& self.scale.len() == self.data.ncols
        &&& self.preserved.len() == self.preserve_columns.len()
        &&& forall|i: int|
            0 <= i < self.preserved.len() ==>
                (#[trigger] self.preserved[i]).len() == self.data.nrows
        &&& (self.labels matches Some(labels) ==> labels.len() == self.data.nrows)
    }

    /// The part of a row of numbers that belongs to a layer.
    pub open spec fn slice(self, row: Seq<Num>, layer: int) -> Seq<Num> {
        row.subrange(
            width_before(self.layers, layer),
            width_before(self.layers, layer) + self.layers[layer].ncols,
        )
    }
}

/// The class that a slice of numbers stands for: the level of the first
/// greatest number, or the no-data text where all numbers are missing.
pub open spec fn class_of(slice: Seq<Num>, levels: Seq<String>, no_data: Seq<char>) -> Seq<char> {
    if all_missing(slice) {
        no_data
    } else {
        levels[choose|i: int| first_greatest(slice, i)]@
    }
}

/// The class of a slice of numbers.
pub fn class_label(slice: &[Num], levels: &Vec<String>, no_data: &str) -> (label: String)
    requires
        slice.len() == levels.len(),
    ensures
        label@ == class_of(slice@, levels@, no_data@),
{
    match argmax(slice) {
        Some(i) => {
            proof {
                let j = choose|j: int| first_greatest(slice@, j);
                first_greatest_is_unique(slice@, i as int, j);
            }
            levels[i].clone()
        },
        None => no_data.to_owned(),
    }
}

/// Layers with other weights.
pub open spec fn with_weights(layers: Seq<Layer>, weights: Seq<Num>) -> Seq<Layer> {
    Seq::new(layers.len(), |l: int| Layer { weight: weights[l], ..layers[l] })
}

/// Other weights leave the columns of the layers where they are.
pub proof fn weights_keep_widths(layers: Seq<Layer>, weights: Seq<Num>, n: int)
    requires
        0 <= n <= layers.len(),
    ensures
        width_before(with_weights(layers, weights), n) == width_before(layers, n),
    decreases n,
{
    if n > 0 {
        weights_keep_widths(layers, weights, n - 1);
    }
}

/// What the error says when classes are asked of a layer of numbers.
pub open spec fn not_categorical(layer_index: usize) -> Seq<char> {
    "Classes can be derived only for categorical layers, but layer "@ + crate::text::decimal(
        layer_index as nat,
    ) + " is not."@
}

/// Central type for SOM setup and processing.
#[derive(Clone, Debug)]
pub struct Processor {
    schema: Schema,
    data: DataFrame,
    layers: Vec<Layer>,
    preserve_columns: Vec<String>,
    preserved: Vec<Vec<String>>,
    label_column: Option<String>,
    labels: Option<Vec<String>>,
    norm: Vec<Norm>,
    denorm: Vec<LinearTransform>,
    scale: Vec<Num>,
    csv_options: CsvOptions,
}

impl View for Processor {
    type V = ProcessorView;

    closed spec fn view(&self) -> ProcessorView {
        ProcessorView {
            schema: self.schema,
            data: self.data@,
            layers: self.layers@,
            preserve_columns: self.preserve_columns@,
            preserved: self.preserved@,
            labels: self.labels,
            norm: self.norm@,
            denorm: self.denorm@,
            scale: self.scale@,
            no_data: self.csv_options.no_data@,
            delimiter: self.csv_options.delimiter,
        }
    }
}

impl Processor {
    /// The parts fit together.
    pub open spec fn wf(&self) -> bool {
        self@.wf()
    }

    /// The normalized data.
    pub fn data(&self) -> (d: &DataFrame)
        ensures
            d@ == self@.data,
    {
        &self.data
    }

    /// The SOM layer definitions.
    pub fn layers(&self) -> (l: &[Layer])
        ensures
            l@ == self@.layers,
    {
        self.layers.as_slice()
    }

    /// The input layer definitions.
    pub fn input_layers(&self) -> (l: &[InputLayer])
        ensures
            l@ == self@.input_layers(),
    {
        self.schema.input_layers.as_slice()
    }

    /// The schema of the training data.
    pub fn schema(&self) -> (s: &Schema)
        ensures
            *s == self@.schema,
    {
        &self.schema
    }

    /// The levels of each layer of classes.
    pub fn levels(&self) -> (l: &[Vec<String>])
        ensures
            l@ == self@.levels(),
    {
        self.schema.levels.as_slice()
    }

    /// The applied normalizers.
    pub fn norm(&self) -> (n: &[Norm])
        ensures
            n@ == self@.norm,
    {
        self.norm.as_slice()
    }

    /// The transforms for de-normalization.
    pub fn denorm(&self) -> (d: &[LinearTransform])
        ensures
            d@ == self@.denorm,
    {
        self.denorm.as_slice()
    }

    /// The applied scalings.
    pub fn scale(&self) -> (s: &[Num])
        ensures
            s@ == self@.scale,
    {
        self.scale.as_slice()
    }

    /// The labels of the records, where a label column is named.
    pub fn labels(&self) -> (l: Option<&[String]>)
        ensures
            match l {
                Some(labels) => self@.labels is Some && labels@ == self@.labels->0@,
                None => self@.labels is None,
            },
    {
        match &self.labels {
            Some(lab) => Some(lab.as_slice()),
            None => None,
        }
    }

    /// The names of the preserved columns.
    pub fn preserve_columns(&self) -> (c: &[String])
        ensures
            c@ == self@.preserve_columns,
    {
        self.preserve_columns.as_slice()
    }

    /// For each preserved column the cells of all records.
    pub fn preserved(&self) -> (p: &[Vec<String>])
        ensures
            p@ == self@.preserved,
    {
        self.preserved.as_slice()
    }

    /// The text of a cell without data.
    pub fn no_data(&self) -> (t: &str)
        ensures
            t@ == self@.no_data,
    {
        self.csv_options.no_data.as_str()
    }

    /// The byte between two cells of a record.
    pub fn delimiter(&self) -> (d: u8)
        ensures
            d == self@.delimiter,
    {
        self.csv_options.delimiter
    }

    /// The columns of one layer: the first, and the one after the last.
    pub fn layer_range(&self, layer: usize) -> (range: (usize, usize))
        requires
            self.wf(),
            layer < self@.layers.len(),
        ensures
            range.0 == width_before(self@.layers, layer as int),
            range.1 == range.0 + self@.layers[layer as int].ncols,
            range.1 <= self@.data.ncols,
    {
        let width = self.data.ncols();
        let mut start: usize = 0;
        let mut l: usize = 0;
        while l < layer
            invariant
                l <= layer,
                layer < self.layers.len(),
                total_width(self.layers@) == width,
                start == width_before(self.layers@, l as int),
            decreases layer - l,
        {
            proof {
                layer_lies_inside(self.layers@, l as int);
            }
            start = start + self.layers[l].ncols;
            l += 1;
        }
        proof {
            layer_lies_inside(self.layers@, layer as int);
        }
        (start, start + self.layers[layer].ncols)
    }

    /// The same processor with normalized training data: the data in place
    /// of what was read, for each column the transform that takes the
    /// normalization back, and a weight for each layer.
    pub fn normalized(self, data: DataFrame, denorm: Vec<LinearTransform>, weights: &[Num]) -> (p:
        Self)
        requires
            self.wf(),
            data.wf(),
            data@.ncols == self@.data.ncols,
            data@.nrows == self@.data.nrows,
            data@.names == self@.data.names,
            denorm.len() == self@.data.ncols,
            weights.len() == self@.layers.len(),
        ensures
            p.wf(),
            p@ == (ProcessorView {
                data: data@,
                denorm: denorm@,
                layers: with_weights(self@.layers, weights@),
                ..self@
            }),
    {
        let mut layers: Vec<Layer> = Vec::new();
        let mut l: usize = 0;
        while l < self.layers.len()
            invariant
                l <= self.layers.len(),
                weights.len() == self.layers.len(),
                layers.len() == l,
                forall|k: int|
                    0 <= k < l ==> layers[k] == (Layer { weight: weights[k], ..self.layers[k] }),
            decreases self.layers.len() - l,
        {
            let layer = &self.layers[l];
            layers.push(Layer::new(layer.ncols, weights[l], layer.categorical, layer.metric));
            l += 1;
        }
        proof {
            assert(layers@ =~= with_weights(self@.layers, weights@));
            weights_keep_widths(self@.layers, weights@, layers.len() as int);
        }
        Processor {
            schema: self.schema,
            data,
            layers,
            preserve_columns: self.preserve_columns,
            preserved: self.preserved,
            label_column: self.label_column,
            labels: self.labels,
            norm: self.norm,
            denorm,
            scale: self.scale,
            csv_options: self.csv_options,
        }
    }

    /// The columns of one layer of a table of numbers, with their names and
    /// all rows.
    pub fn layer_data(&self, data: &DataFrame, layer_index: usize) -> (df: DataFrame)
        requires
            self.wf(),
            data.wf(),
            data@.ncols == self@.data.ncols,
            layer_index < self@.layers.len(),
        ensures
            df.wf(),
            df@.ncols == self@.layers[layer_index as int].ncols,
            df@.nrows == data@.nrows,
            forall|j: int|
                0 <= j < df@.ncols ==> (#[trigger] df@.names[j]) == data@.names[width_before(
                    self@.layers,
                    layer_index as int,
                ) + j],
            forall|r: int, j: int|
                0 <= r < df@.nrows && 0 <= j < df@.ncols ==> (#[trigger] df@.at(r, j)) == data@.at(
                    r,
                    width_before(self@.layers, layer_index as int) + j,
                ),
    {
        let (start, end) = self.layer_range(layer_index);
        let mut columns: Vec<usize> = Vec::new();
        let mut c = start;
        while c < end
            invariant
                start <= c <= end,
                end <= data@.ncols,
                columns.len() == c - start,
                forall|j: int| 0 <= j < columns.len() ==> (#[trigger] columns[j]) == start + j,
            decreases end - c,
        {
            columns.push(c);
            c += 1;
        }
        let total = data.data().len();
        assert(data@.nrows * columns.len() <= data@.nrows * data@.ncols) by (nonlinear_arith)
            requires
                columns.len() <= data@.ncols,
        ;
        data.select(columns.as_slice())
    }

    /// Finds the nearest unit of a map for each row of a table. Row `i` of
    /// `distances` holds the distances from row `i` of the table to every
    /// unit of the map.
    ///
    /// # Returns
    /// A vector of (unit index, distance).
    pub fn nearest_unit(&self, som: &Som, distances: &DataFrame) -> (found: Vec<(usize, Num)>)
        requires
            distances.wf(),
            distances@.ncols == som@.size(),
        ensures
            found.len() == distances@.nrows,
            forall|i: int|
                0 <= i < found.len() ==> crate::calc::nn::is_nearest(
                    distances@.row(i),
                    #[trigger] found[i],
                ),
            forall|i: int|
                0 <= i < found.len() && som@.size() > 0 ==> (#[trigger] found[i]).0 < som@.size(),
    {
        let mut result: Vec<(usize, Num)> = Vec::new();
        let mut i: usize = 0;
        while i < distances.nrows()
            invariant
                i <= distances@.nrows,
                result.len() == i,
            decreases distances@.nrows - i,
        {
            result.push((0, Num::zero()));
            i += 1;
        }
        let found = crate::calc::nn::nearest_neighbors(distances, result);
        proof {
            assert forall|i: int| 0 <= i < found.len() && som@.size() > 0 implies
                (#[trigger] found[i]).0
                < som@.size() by {
                crate::data::row_in_table(distances@.nrows, distances@.ncols, i);
                assert(crate::calc::nn::is_nearest(distances@.row(i), found[i]));
            }
        }
        found
    }

    /// Creates an SOM for the `Processor`'s layer definitions and data. All
    /// weights are zero: give the map its first weights with
    /// [`Som::init_weights`].
    pub fn create_som(
        &self,
        nrows: usize,
        ncols: usize,
        epochs: u32,
        neighborhood: Neighborhood,
        alpha: DecayParam,
        radius: DecayParam,
        decay: DecayParam,
    ) -> (r: Result<Som, ConfigError>)
        requires
            self.wf(),
            epochs >= 1,
            nrows * ncols <= usize::MAX,
            (nrows * ncols) * self@.data.ncols <= usize::MAX,
            (nrows * ncols) * (nrows * ncols) <= usize::MAX,
        ensures
            r is Ok <==> epochs_fit(epochs, alpha, radius, decay),
            r matches Ok(som) ==> {
                &&& som.wf()
                &&& som@.nrows == nrows
                &&& som@.ncols == ncols
                &&& som@.dims == self@.data.ncols
                &&& som@.epoch == 0
                &&& som@.seed == None::<u64>
                &&& som@.params.epochs == epochs
                &&& som@.params.neighborhood == neighborhood
                &&& som@.params.alpha == alpha
                &&& som@.params.radius == radius
                &&& som@.params.decay == decay
                &&& som@.params.layers == self@.layers
                &&& som@.weights.names == self@.data.names
                &&& som@.weights.cells == Seq::new(
                    ((nrows * ncols) * self@.data.ncols) as nat,
                    |i: int| Num { bits: 0 },
                )
            },
            r matches Err(e) ==> e.0@ == SomParams::error_text(),
    {
        let mut layers: Vec<Layer> = Vec::new();
        let mut l: usize = 0;
        while l < self.layers.len()
            invariant
                l <= self.layers.len(),
                layers.len() == l,
                forall|k: int| 0 <= k < l ==> layers[k] == self.layers[k],
            decreases self.layers.len() - l,
        {
            layers.push(self.layers[l]);
            l += 1;
        }
        assert(layers@ =~= self.layers@);
        let width = self.data.ncols();
        let params = match SomParams::xyf(epochs, neighborhood, alpha, radius, decay, layers) {
            Ok(params) => params,
            Err(e) => {
                return Err(e);
            },
        };
        let names = borrow_names(self.data.names());
        Ok(Som::new(names.as_slice(), nrows, ncols, params))
    }

    /// Transforms a categorical layer of a table of numbers to class labels,
    /// one for each row of the table: the level whose column holds the
    /// greatest number of the layer, the first of them where several do, and
    /// the no-data text where the layer holds no number.
    ///
    /// Returns the name of the layer's column and the labels, or an error if
    /// the layer is not categorical.
    pub fn to_class(&self, data: &DataFrame, layer_index: usize) -> (r: Result<
        (String, Vec<String>),
        DataTypeError,
    >)
        requires
            self.wf(),
            data.wf(),
            data@.ncols == self@.data.ncols,
            layer_index < self@.layers.len(),
        ensures
            r is Ok <==> self@.layers[layer_index as int].categorical,
            r matches Ok(found) ==> {
                &&& found.0@ == self@.input_layers()[layer_index as int].names[0]@
                &&& found.1.len() == data@.nrows
                &&& forall|row: int|
                    0 <= row < data@.nrows ==> (#[trigger] found.1[row])@ == class_of(
                        self@.slice(data@.row(row), layer_index as int),
                        self@.levels()[layer_index as int]@,
                        self@.no_data,
                    )
            },
            r matches Err(e) ==> e.0@ == not_categorical(layer_index),
    {
        if !self.layers[layer_index].categorical {
            return Err(
                DataTypeError(
                    String::from_str(
                        "Classes can be derived only for categorical layers, but layer ",
                    ).concat(crate::text::decimal_text(layer_index).as_str()).concat(" is not."),
                ),
            );
        }
        let (start, end) = self.layer_range(layer_index);
        let levels = &self.schema.levels[layer_index];
        let mut result: Vec<String> = Vec::new();
        let mut row: usize = 0;
        while row < data.nrows()
            invariant
                self.wf(),
                data.wf(),
                data@.ncols == self@.data.ncols,
                layer_index < self@.layers.len(),
                self@.layers[layer_index as int].categorical,
                start == width_before(self@.layers, layer_index as int),
                end == start + self@.layers[layer_index as int].ncols,
                end <= data@.ncols,
                *levels == self@.levels()[layer_index as int],
                row <= data@.nrows,
                result.len() == row,
                forall|k: int|
                    0 <= k < row ==> (#[trigger] result[k])@ == class_of(
                        self@.slice(data@.row(k), layer_index as int),
                        self@.levels()[layer_index as int]@,
                        self@.no_data,
                    ),
            decreases data@.nrows - row,
        {
            let cells = data.get_row(row);
            let slice = vstd::slice::slice_subrange(cells, start, end);
            result.push(class_label(slice, levels, self.csv_options.no_data.as_str()));
            row += 1;
        }
        Ok((self.schema.input_layers[layer_index].names[0].clone(), result))
    }
}

} // verus!
