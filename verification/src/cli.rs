//! Command-line interface for SOMs: from raw arguments to the parameters of
//! a run.

use crate::calc::metric::Metric;
use crate::calc::neighborhood::Neighborhood;
use crate::calc::norm::Norm;
use crate::map::som::{schedule_is_valid, DecayFunction, DecayParam};
use crate::num::{Num, ONE};
use crate::proc::InputLayer;
use crate::text::{chars_of, marks_pieces, split, split_range, text_between, trim, trim_range};
use crate::data::strings;
use crate::enum_message;
use vstd::prelude::*;

verus! {

/// Error type for command lines that cannot be understood.
#[derive(Debug, Clone, PartialEq, Eq)]
pub struct ParseCliError(pub String);

impl ParseCliError {
    /// The message.
    pub fn to_string(&self) -> (s: String)
        ensures
            s@ == self.0@,
    {
        self.0.clone()
    }
}

/// One argument that may stand for a number: its text, and the number that
/// the text reads as, if it reads as one.
#[derive(Debug, Clone)]
pub struct Arg {
    pub text: String,
    pub number: Option<Num>,
}

/// Raw command line arguments.
#[derive(Debug, Clone)]
pub struct Cli {
    /// Path to the training data file.
    pub file: String,
    /// SOM size: width, height.
    pub size: Vec<usize>,
    /// Number of training epochs.
    pub epochs: u32,
    /// Layer columns, one text with the columns of each layer.
    pub layers: Vec<String>,
    /// Columns to be preserved for output.
    pub preserve: Vec<String>,
    /// Column to be used as label.
    pub labels: Option<String>,
    /// Maximum length of labels.
    pub label_length: Option<usize>,
    /// Number of labels to show.
    pub label_samples: Option<usize>,
    /// Layer weights.
    pub weights: Vec<Num>,
    /// Which layers are categorical.
    pub categ: Vec<bool>,
    /// Distance metric per layer.
    pub metric: Vec<String>,
    /// Normalizer per layer.
    pub norm: Vec<String>,
    /// Learning rate: start, end, type (lin|exp)
    pub alpha: Vec<Arg>,
    /// Neighborhood radius: start, end, type (lin|exp)
    pub radius: Vec<Arg>,
    /// Weight decay: start, end, type (lin|exp)
    pub decay: Vec<Arg>,
    /// Neighborhood function.
    pub neigh: Option<String>,
    /// Disable GUI
    pub nogui: bool,
    /// Maximum GUI update frequency in frames per second.
    pub fps: Option<Num>,
    /// No-data value.
    pub no_data: Option<String>,
    /// Output base path.
    pub output: Option<String>,
    /// Wait for a key press after processing.
    pub wait: bool,
}

/// Of the first `n` pieces, those that are not empty once the white space
/// round them is taken away, without that white space.
pub open spec fn words(pieces: Seq<Seq<char>>, n: int) -> Seq<Seq<char>>
    decreases n,
{
    if n <= 0 {
        Seq::empty()
    } else if trim(pieces[n - 1]).len() > 0 {
        words(pieces, n - 1).push(trim(pieces[n - 1]))
    } else {
        words(pieces, n - 1)
    }
}

/// The arguments in a part of a command line outside quotes: the words
/// between its blanks.
pub open spec fn plain_arguments(part: Seq<char>) -> Seq<Seq<char>> {
    let pieces = split(trim(part), ' ');
    words(pieces, pieces.len() as int)
}

/// The arguments in the first `n` parts of a command line, the parts being
/// what stands between its quotes: every second part stood inside quotes
/// and is one argument, the others hold one argument for each word.
pub open spec fn arguments_upto(parts: Seq<Seq<char>>, n: int) -> Seq<Seq<char>>
    decreases n,
{
    if n <= 0 {
        Seq::empty()
    } else if (n - 1) % 2 == 0 {
        arguments_upto(parts, n - 1) + plain_arguments(parts[n - 1])
    } else {
        arguments_upto(parts, n - 1).push(trim(parts[n - 1]))
    }
}

/// The arguments of a command line that is given as one text. Quoted
/// strings are kept intact.
pub open spec fn arguments(line: Seq<char>) -> Seq<Seq<char>> {
    let parts = split(line, '"');
    arguments_upto(parts, parts.len() as int)
}

impl Cli {
    /// Splits a command line that is given as one text into its arguments.
    /// Quoted strings are kept intact.
    pub fn tokenize(str: &str) -> (args: Vec<String>)
        ensures
            crate::data::strings(args@) == arguments(str@),
    {
        let chars = chars_of(str);
        let line = chars.as_slice();
        assert(line@.subrange(0, line.len() as int) =~= str@);
        let parts = split_range(line, 0, line.len(), '"');
        let ghost quoted = split(str@, '"');
        let mut args: Vec<String> = Vec::new();
        assert(crate::data::strings(args@) =~= arguments_upto(quoted, 0));
        let mut i: usize = 0;
        while i < parts.len()
            invariant
                i <= parts.len(),
                line@ == str@,
                quoted == split(str@, '"'),
                marks_pieces(parts@, line@, 0, line.len() as int, '"'),
                line@.subrange(0, line.len() as int) == str@,
                crate::data::strings(args@) == arguments_upto(quoted, i as int),
            decreases parts.len() - i,
        {
            let (from, to) = parts[i];
            assert(line@.subrange(from as int, to as int) == quoted[i as int]);
            let (a, b) = trim_range(line, from, to);
            let ghost before = crate::data::strings(args@);
            if i % 2 == 0 {
                let pieces = split_range(line, a, b, ' ');
                let ghost blanks = split(trim(quoted[i as int]), ' ');
                assert(before =~= before + words(blanks, 0));
                let mut k: usize = 0;
                while k < pieces.len()
                    invariant
                        k <= pieces.len(),
                        line@ == str@,
                        a <= b <= line.len(),
                        blanks == split(line@.subrange(a as int, b as int), ' '),
                        marks_pieces(pieces@, line@, a as int, b as int, ' '),
                        crate::data::strings(args@) == before + words(blanks, k as int),
                    decreases pieces.len() - k,
                {
                    let (c, d) = pieces[k];
                    assert(line@.subrange(c as int, d as int) == blanks[k as int]);
                    let (e, f) = trim_range(line, c, d);
                    let ghost seen = crate::data::strings(args@);
                    if f > e {
                        args.push(text_between(str, e, f));
                        assert(crate::data::strings(args@) =~= seen.push(trim(blanks[k as int])));
                    }
                    assert(crate::data::strings(args@) =~= before + words(blanks, k + 1));
                    k += 1;
                }
            } else {
                args.push(text_between(str, a, b));
                assert(crate::data::strings(args@) =~= before.push(trim(quoted[i as int])));
            }
            i += 1;
        }
        args
    }
}

/// Parsed command line arguments.
#[derive(Debug)]
pub struct CliParsed {
    pub file: String,
    pub size: (usize, usize),
    pub epochs: u32,
    pub layers: Vec<InputLayer>,
    pub preserve: Vec<String>,
    pub labels: Option<String>,
    pub label_length: Option<usize>,
    pub label_samples: Option<usize>,
    pub alpha: DecayParam,
    pub radius: DecayParam,
    pub decay: DecayParam,
    pub neigh: Neighborhood,
    pub gui: bool,
    pub no_data: String,
    pub fps: Num,
    pub output: Option<String>,
    pub wait: bool,
}

/// Bit pattern of two, the frames per second where none are given.
pub const DEFAULT_FPS: u64 = 0x4000_0000_0000_0000;

/// The decay function that a text names, if it names one.
pub open spec fn decay_function(text: Seq<char>) -> Option<DecayFunction> {
    if text == "lin"@ {
        Some(DecayFunction::Linear)
    } else if text == "exp"@ {
        Some(DecayFunction::Exponential)
    } else {
        None
    }
}

/// The metric that a text names, if it names one.
pub open spec fn metric_named(text: Seq<char>) -> Option<Metric> {
    if text == "euclidean"@ {
        Some(Metric::Euclidean)
    } else if text == "tanimoto"@ {
        Some(Metric::Tanimoto)
    } else {
        None
    }
}

/// The normalizer that a text names, if it names one.
pub open spec fn norm_named(text: Seq<char>) -> Option<Norm> {
    if text == "unit"@ {
        Some(Norm::Unit)
    } else if text == "gauss"@ {
        Some(Norm::Gauss)
    } else if text == "none"@ {
        Some(Norm::Plain)
    } else {
        None
    }
}

/// The neighborhood that a text names, if it names one.
pub open spec fn neighborhood_named(text: Seq<char>) -> Option<Neighborhood> {
    if text == "gauss"@ {
        Some(Neighborhood::Gauss)
    } else if text == "triangular"@ {
        Some(Neighborhood::Triangular)
    } else if text == "epanechnikov"@ {
        Some(Neighborhood::Epanechnikov)
    } else if text == "quartic"@ {
        Some(Neighborhood::Quartic)
    } else if text == "triweight"@ {
        Some(Neighborhood::Triweight)
    } else {
        None
    }
}

/// What is wrong with the three arguments of a schedule, if anything: the
/// first fault, in the order of the checks.
pub open spec fn decay_fault(values: Seq<Arg>, name: Seq<char>) -> Option<Seq<char>> {
    if values.len() != 3 {
        Some(
            "Three argument required for "@ + name
                + ": start value, end value, decay function (lin|exp)"@,
        )
    } else if values[0].number is None {
        Some("Unable to parse value "@ + values[0].text@ + " in "@ + name)
    } else if values[1].number is None {
        Some("Unable to parse value "@ + values[1].text@ + " in "@ + name)
    } else if decay_function(values[2].text@) is None {
        Some(
            enum_message(
                DecayFunction::error_head(),
                values[2].text@,
                DecayFunction::error_tail(),
            ),
        )
    } else if !schedule_is_valid(
        values[0].number->0,
        values[1].number->0,
        decay_function(values[2].text@)->0,
    ) {
        Some(DecayParam::error_text())
    } else {
        None
    }
}

/// What is wrong with the numbers of the layer options, if anything: there
/// is at least one layer, and each option has no values or one for each
/// layer.
pub open spec fn counts_fault(cli: Cli) -> Option<Seq<char>> {
    let n = cli.layers.len();
    if n == 0 {
        Some("Expected columns for at least one layer (option --layers)"@)
    } else if cli.weights.len() != 0 && cli.weights.len() != n {
        Some("Expected no weights, or as many as layers (option --weights)"@)
    } else if cli.categ.len() != 0 && cli.categ.len() != n {
        Some("Expected no categorical true/false, or as many as layers (option --categ)"@)
    } else if cli.metric.len() != 0 && cli.metric.len() != n {
        Some("Expected no metric, or as many as layers (option --metric)"@)
    } else if cli.norm.len() != 0 && cli.norm.len() != n {
        Some("Expected no normalizers, or as many as layers (option --norm)"@)
    } else {
        None
    }
}

/// The columns of a layer: the words of its text.
pub open spec fn layer_columns(cli: Cli, i: int) -> Seq<Seq<char>> {
    split(trim(cli.layers[i]@), ' ')
}

/// Whether a layer is categorical: none is where nothing is said.
pub open spec fn layer_is_class(cli: Cli, i: int) -> bool {
    cli.categ.len() != 0 && cli.categ[i]
}

/// The weight of a layer: one where nothing is said.
pub open spec fn layer_weight(cli: Cli, i: int) -> Num {
    if cli.weights.len() == 0 {
        Num { bits: ONE }
    } else {
        cli.weights[i]
    }
}

/// The metric of a layer: where nothing is said, Tanimoto for a
/// categorical layer and Euclidean for another.
pub open spec fn layer_metric(cli: Cli, i: int) -> Option<Metric> {
    if cli.metric.len() == 0 {
        Some(InputLayer::default_metric(layer_is_class(cli, i)))
    } else {
        metric_named(cli.metric[i]@)
    }
}

/// The normalizer of a layer: where nothing is said, none for a
/// categorical layer and the Gaussian for another.
pub open spec fn layer_norm(cli: Cli, i: int) -> Option<Norm> {
    if cli.norm.len() == 0 {
        Some(
            if layer_is_class(cli, i) {
                Norm::Plain
            } else {
                Norm::Gauss
            },
        )
    } else {
        norm_named(cli.norm[i]@)
    }
}

/// What is wrong with one layer, if anything: its metric and its
/// normalizer are known, and a categorical layer has one column and no
/// normalizer.
pub open spec fn layer_fault(cli: Cli, i: int) -> Option<Seq<char>> {
    if layer_metric(cli, i) is None {
        Some(enum_message(Metric::error_head(), cli.metric[i]@, Metric::error_tail()))
    } else if layer_norm(cli, i) is None {
        Some(enum_message(Norm::error_head(), cli.norm[i]@, Norm::error_tail()))
    } else if layer_is_class(cli, i) && layer_columns(cli, i).len() != 1 {
        Some("A categorical layer has exactly one column"@)
    } else if layer_is_class(cli, i) && layer_norm(cli, i) != Some(Norm::Plain) {
        Some("A categorical layer is not normalized"@)
    } else {
        None
    }
}

/// What is wrong with the first of the first `n` layers that has a fault.
pub open spec fn first_fault(cli: Cli, n: int) -> Option<Seq<char>>
    decreases n,
{
    if n <= 0 {
        None
    } else {
        match first_fault(cli, n - 1) {
            Some(fault) => Some(fault),
            None => layer_fault(cli, n - 1),
        }
    }
}

/// The first fault stays the first when more layers are looked at.
pub proof fn first_fault_stays(cli: Cli, i: int, n: int)
    requires
        0 <= i < n,
        first_fault(cli, i) is None,
        layer_fault(cli, i) is Some,
    ensures
        first_fault(cli, n) == layer_fault(cli, i),
    decreases n,
{
    if n > i + 1 {
        first_fault_stays(cli, i, n - 1);
    }
}

/// What is wrong with the layer options, if anything.
pub open spec fn layers_fault(cli: Cli) -> Option<Seq<char>> {
    match counts_fault(cli) {
        Some(fault) => Some(fault),
        None => first_fault(cli, cli.layers.len() as int),
    }
}

/// Whether an input layer is layer `i` of the command line.
pub open spec fn describes(layer: InputLayer, cli: Cli, i: int) -> bool {
    &&& strings(layer.names@) == layer_columns(cli, i)
    &&& layer.indices is None
    &&& layer.num_columns is None
    &&& layer.weight == layer_weight(cli, i)
    &&& layer.is_class == layer_is_class(cli, i)
    &&& Some(layer.metric) == layer_metric(cli, i)
    &&& Some(layer.norm) == layer_norm(cli, i)
    &&& layer.scale == (Num { bits: ONE })
    &&& layer.valid()
}

/// What is wrong with a command line, if anything: the first fault, in the
/// order of the checks.
pub open spec fn cli_fault(cli: Cli) -> Option<Seq<char>> {
    if cli.size.len() != 2 {
        Some("Two arguments required for size: width, height"@)
    } else if cli.epochs == 0 {
        Some("At least one epoch is required (option --epochs)"@)
    } else if layers_fault(cli) is Some {
        layers_fault(cli)
    } else if decay_fault(cli.alpha@, "alpha"@) is Some {
        decay_fault(cli.alpha@, "alpha"@)
    } else if decay_fault(cli.radius@, "radius"@) is Some {
        decay_fault(cli.radius@, "radius"@)
    } else if decay_fault(cli.decay@, "decay"@) is Some {
        decay_fault(cli.decay@, "decay"@)
    } else if cli.neigh is Some && neighborhood_named(cli.neigh->0@) is None {
        Some(
            enum_message(
                Neighborhood::error_head(),
                cli.neigh->0@,
                Neighborhood::error_tail(),
            ),
        )
    } else {
        None
    }
}

/// Splits the text of a layer into the names of its columns.
pub fn split_columns(text: &str) -> (names: Vec<String>)
    ensures
        strings(names@) == split(trim(text@), ' '),
{
    let chars = chars_of(text);
    let line = chars.as_slice();
    let (a, b) = trim_range(line, 0, line.len());
    assert(line@.subrange(0, line.len() as int) =~= text@);
    let pieces = split_range(line, a, b, ' ');
    let mut names: Vec<String> = Vec::new();
    let mut k: usize = 0;
    while k < pieces.len()
        invariant
            k <= pieces.len(),
            line@ == text@,
            marks_pieces(pieces@, line@, a as int, b as int, ' '),
            line@.subrange(a as int, b as int) == trim(text@),
            b <= line.len(),
            names.len() == k,
            forall|i: int| 0 <= i < k ==> (#[trigger] names[i])@ == split(trim(text@), ' ')[i],
        decreases pieces.len() - k,
    {
        let (c, d) = pieces[k];
        names.push(text_between(text, c, d));
        k += 1;
    }
    assert(strings(names@) =~= split(trim(text@), ' '));
    names
}

impl CliParsed {
    /// Reads a schedule from its three arguments: start value, end value
    /// and decay function.
    pub fn parse_decay(values: &[Arg], name: &str) -> (r: Result<DecayParam, ParseCliError>)
        ensures
            match r {
                Ok(p) => {
                    &&& decay_fault(values@, name@) is None
                    &&& Some(p.spec_start()) == values[0].number
                    &&& Some(p.spec_end()) == values[1].number
                    &&& Some(p.spec_function()) == decay_function(values[2].text@)
                },
                Err(e) => Some(e.0@) == decay_fault(values@, name@),
            },
    {
        if values.len() != 3 {
            return Err(
                ParseCliError(
                    String::from_str("Three argument required for ").concat(name).concat(
                        ": start value, end value, decay function (lin|exp)",
                    ),
                ),
            );
        }
        let start = match values[0].number {
            Some(x) => x,
            None => {
                return Err(
                    ParseCliError(
                        String::from_str("Unable to parse value ").concat(
                            values[0].text.as_str(),
                        ).concat(" in ").concat(name),
                    ),
                );
            },
        };
        let end = match values[1].number {
            Some(x) => x,
            None => {
                return Err(
                    ParseCliError(
                        String::from_str("Unable to parse value ").concat(
                            values[1].text.as_str(),
                        ).concat(" in ").concat(name),
                    ),
                );
            },
        };
        let function = match DecayFunction::from_string(values[2].text.as_str()) {
            Ok(f) => f,
            Err(e) => {
                return Err(ParseCliError(e.0));
            },
        };
        match DecayParam::new(start, end, function) {
            Ok(p) => Ok(p),
            Err(e) => Err(ParseCliError(e.0)),
        }
    }

    /// Reads the layers from the layer options: the columns, and for each
    /// layer its weight, whether it is categorical, its metric and its
    /// normalizer, with their defaults where an option is left out.
    pub fn parse_layers(cli: &Cli) -> (r: Result<Vec<InputLayer>, ParseCliError>)
        ensures
            match r {
                Ok(layers) => {
                    &&& layers_fault(*cli) is None
                    &&& layers.len() == cli.layers.len()
                    &&& forall|i: int|
                        0 <= i < layers.len() ==> describes(#[trigger] layers[i], *cli, i)
                },
                Err(e) => Some(e.0@) == layers_fault(*cli),
            },
    {
        let n_layers = cli.layers.len();
        if n_layers == 0 {
            return Err(
                ParseCliError(
                    "Expected columns for at least one layer (option --layers)".to_owned(),
                ),
            );
        }
        if cli.weights.len() != 0 && cli.weights.len() != n_layers {
            return Err(
                ParseCliError(
                    "Expected no weights, or as many as layers (option --weights)".to_owned(),
                ),
            );
        }
        if cli.categ.len() != 0 && cli.categ.len() != n_layers {
            return Err(
                ParseCliError(
                    "Expected no categorical true/false, or as many as layers (option --categ)"
                        .to_owned(),
                ),
            );
        }
        if cli.metric.len() != 0 && cli.metric.len() != n_layers {
            return Err(
                ParseCliError(
                    "Expected no metric, or as many as layers (option --metric)".to_owned(),
                ),
            );
        }
        if cli.norm.len() != 0 && cli.norm.len() != n_layers {
            return Err(
                ParseCliError(
                    "Expected no normalizers, or as many as layers (option --norm)".to_owned(),
                ),
            );
        }
        proof {
            reveal_strlit("euclidean");
            reveal_strlit("tanimoto");
            reveal_strlit("unit");
            reveal_strlit("gauss");
            reveal_strlit("none");
            assert("euclidean"@.len() != "tanimoto"@.len());
            assert("unit"@.len() == 4 && "gauss"@.len() == 5 && "none"@.len() == 4);
            assert("unit"@[0] != "none"@[0]);
        }
        let mut layers: Vec<InputLayer> = Vec::new();
        let mut i: usize = 0;
        while i < n_layers
            invariant
                i <= n_layers,
                n_layers == cli.layers.len(),
                counts_fault(*cli) is None,
                first_fault(*cli, i as int) is None,
                layers.len() == i,
                forall|k: int| 0 <= k < i ==> describes(#[trigger] layers[k], *cli, k),
                "euclidean"@.len() != "tanimoto"@.len(),
                "unit"@.len() == 4 && "gauss"@.len() == 5 && "none"@.len() == 4,
                "unit"@[0] != "none"@[0],
            decreases n_layers - i,
        {
            let is_class = cli.categ.len() != 0 && cli.categ[i];
            let weight = if cli.weights.len() == 0 {
                Num::one()
            } else {
                cli.weights[i]
            };
            let metric = if cli.metric.len() == 0 {
                if is_class {
                    Metric::Tanimoto
                } else {
                    Metric::Euclidean
                }
            } else {
                match Metric::from_string(cli.metric[i].as_str()) {
                    Ok(m) => m,
                    Err(e) => {
                        proof {
                            first_fault_stays(*cli, i as int, n_layers as int);
                        }
                        return Err(ParseCliError(e.0));
                    },
                }
            };
            let norm = if cli.norm.len() == 0 {
                if is_class {
                    Norm::Plain
                } else {
                    Norm::Gauss
                }
            } else {
                match Norm::from_string(cli.norm[i].as_str()) {
                    Ok(m) => m,
                    Err(e) => {
                        proof {
                            first_fault_stays(*cli, i as int, n_layers as int);
                        }
                        return Err(ParseCliError(e.0));
                    },
                }
            };
            let names = split_columns(cli.layers[i].as_str());
            if is_class && names.len() != 1 {
                assert(strings(names@).len() == names.len());
                proof {
                    first_fault_stays(*cli, i as int, n_layers as int);
                }
                return Err(ParseCliError("A categorical layer has exactly one column".to_owned()));
            }
            if is_class && norm != Norm::Plain {
                assert(strings(names@).len() == names.len());
                proof {
                    first_fault_stays(*cli, i as int, n_layers as int);
                }
                return Err(ParseCliError("A categorical layer is not normalized".to_owned()));
            }
            assert(strings(names@).len() == names.len());
            layers.push(
                InputLayer {
                    names,
                    indices: None,
                    num_columns: None,
                    weight,
                    is_class,
                    metric,
                    norm,
                    scale: Num::one(),
                },
            );
            i += 1;
        }
        Ok(layers)
    }

    /// Parses arguments from a [`Cli`].
    pub fn from_cli(cli: Cli) -> (r: Result<CliParsed, ParseCliError>)
        ensures
            match r {
                Ok(parsed) => {
                    &&& cli_fault(cli) is None
                    &&& parsed.file == cli.file
                    &&& parsed.size == (cli.size[0], cli.size[1])
                    &&& parsed.epochs == cli.epochs
                    &&& parsed.layers.len() == cli.layers.len()
                    &&& forall|i: int|
                        0 <= i < parsed.layers.len() ==> describes(
                            #[trigger] parsed.layers[i],
                            cli,
                            i,
                        )
                    &&& parsed.preserve == cli.preserve
                    &&& parsed.labels == cli.labels
                    &&& parsed.label_length == cli.label_length
                    &&& parsed.label_samples == cli.label_samples
                    &&& decay_fault(cli.alpha@, "alpha"@) is None
                    &&& Some(parsed.alpha.spec_start()) == cli.alpha[0].number
                    &&& Some(parsed.alpha.spec_end()) == cli.alpha[1].number
                    &&& Some(parsed.alpha.spec_function()) == decay_function(cli.alpha[2].text@)
                    &&& Some(parsed.radius.spec_start()) == cli.radius[0].number
                    &&& Some(parsed.radius.spec_end()) == cli.radius[1].number
                    &&& Some(parsed.radius.spec_function()) == decay_function(cli.radius[2].text@)
                    &&& Some(parsed.decay.spec_start()) == cli.decay[0].number
                    &&& Some(parsed.decay.spec_end()) == cli.decay[1].number
                    &&& Some(parsed.decay.spec_function()) == decay_function(cli.decay[2].text@)
                    &&& parsed.neigh == match cli.neigh {
                        Some(name) => neighborhood_named(name@)->0,
                        None => Neighborhood::Gauss,
                    }
                    &&& parsed.gui == !cli.nogui
                    &&& parsed.no_data@ == match cli.no_data {
                        Some(text) => text@,
                        None => "NA"@,
                    }
                    &&& parsed.fps == match cli.fps {
                        Some(fps) => fps,
                        None => Num { bits: DEFAULT_FPS },
                    }
                    &&& parsed.output == cli.output
                    &&& parsed.wait == cli.wait
                },
                Err(e) => Some(e.0@) == cli_fault(cli),
            },
    {
        if cli.size.len() != 2 {
            return Err(ParseCliError("Two arguments required for size: width, height".to_owned()));
        }
        if cli.epochs == 0 {
            return Err(
                ParseCliError("At least one epoch is required (option --epochs)".to_owned()),
            );
        }
        let layers = match Self::parse_layers(&cli) {
            Ok(layers) => layers,
            Err(e) => {
                return Err(e);
            },
        };
        let alpha = match Self::parse_decay(cli.alpha.as_slice(), "alpha") {
            Ok(p) => p,
            Err(e) => {
                return Err(e);
            },
        };
        let radius = match Self::parse_decay(cli.radius.as_slice(), "radius") {
            Ok(p) => p,
            Err(e) => {
                return Err(e);
            },
        };
        let decay = match Self::parse_decay(cli.decay.as_slice(), "decay") {
            Ok(p) => p,
            Err(e) => {
                return Err(e);
            },
        };
        proof {
            reveal_strlit("gauss");
            reveal_strlit("triangular");
            reveal_strlit("epanechnikov");
            reveal_strlit("quartic");
            reveal_strlit("triweight");
            assert("gauss"@.len() == 5 && "triangular"@.len() == 10 && "epanechnikov"@.len() == 12
                && "quartic"@.len() == 7 && "triweight"@.len() == 9);
        }
        let neigh = match &cli.neigh {
            Some(name) => match Neighborhood::from_string(name.as_str()) {
                Ok(n) => n,
                Err(e) => {
                    return Err(ParseCliError(e.0));
                },
            },
            None => Neighborhood::Gauss,
        };
        let size = (cli.size[0], cli.size[1]);
        Ok(
            CliParsed {
                file: cli.file,
                size,
                epochs: cli.epochs,
                layers,
                preserve: cli.preserve,
                labels: cli.labels,
                label_length: cli.label_length,
                label_samples: cli.label_samples,
                alpha,
                radius,
                decay,
                neigh,
                gui: !cli.nogui,
                no_data: match cli.no_data {
                    Some(text) => text,
                    None => "NA".to_owned(),
                },
                fps: match cli.fps {
                    Some(fps) => fps,
                    None => Num { bits: DEFAULT_FPS },
                },
                output: cli.output,
                wait: cli.wait,
            },
        )
    }
}

} // verus!
