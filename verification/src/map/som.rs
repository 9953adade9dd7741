//! Super-SOM for flexible use as unsupervised or supervised SOM. Core types.
//!
//! A map is trained epoch by epoch. [`Som::epoch`] plans an epoch: it says
//! which samples to train with, and in which order. For each of them the
//! user of the map computes the distance to every unit, lets
//! [`crate::calc::nn::nearest_neighbor`] choose the best matching unit, asks
//! [`Som::neighborhood`] for the units round it, computes the weights that
//! those units move to, and hands them to [`Som::train`]. At the end of the
//! epoch [`Som::finish_epoch`] takes the decayed weights and counts the
//! epoch.
//!
//! The reach of a training step is given as a limit on the squared planar
//! distance between units: for a search radius `r`, the greatest whole
//! number whose root is at most `r`.

use crate::calc::metric::Metric;
use crate::calc::neighborhood::Neighborhood;
use crate::data::{row_in_table, DataFrame, Table};
use crate::map::grid::{
    ball, ball_holds_the_near, ball_skips_the_far, far_rows_and_columns_are_outside,
    grid_distance_is_bounded, grid_distance_sq, is_distance_table, pair, row_col_of_unit,
    unit_of_row_col,
};
use crate::num::Num;
use crate::text::same_text;
use crate::{enum_error, enum_message, ConfigError, ParseEnumError};
use rand::seq::SliceRandom;
use rand::SeedableRng;
use std::str::FromStr;
use vstd::prelude::*;

verus! {

/// Decay functions for learning parameters.
#[derive(Debug, Clone, Copy, PartialEq, Eq, Structural)]
pub enum DecayFunction {
    /// Linear decay
    Linear,
    /// Exponential decay
    Exponential,
}

impl DecayFunction {
    /// What the message of a failed parse says before the text.
    pub open spec fn error_head() -> Seq<char> {
        "Not a decay function: "@
    }

    /// What the message of a failed parse says after the text.
    pub open spec fn error_tail() -> Seq<char> {
        ". Must be one of (lin|exp)"@
    }

    /// Parses a text to a `DecayFunction`.
    ///
    /// Accepts `lin` and `exp`.
    pub fn from_string(str: &str) -> (r: Result<DecayFunction, ParseEnumError>)
        ensures
            str@ == "lin"@ ==> r == Ok::<DecayFunction, ParseEnumError>(DecayFunction::Linear),
            str@ == "exp"@ ==> r == Ok::<DecayFunction, ParseEnumError>(DecayFunction::Exponential),
            r is Ok <==> str@ == "lin"@ || str@ == "exp"@,
            r matches Err(e) ==> e.0@ == enum_message(Self::error_head(), str@, Self::error_tail()),
    {
        proof {
            reveal_strlit("lin");
            reveal_strlit("exp");
            assert("lin"@[0] != "exp"@[0]);
        }
        if same_text(str, "lin") {
            Ok(DecayFunction::Linear)
        } else if same_text(str, "exp") {
            Ok(DecayFunction::Exponential)
        } else {
            Err(enum_error("Not a decay function: ", str, ". Must be one of (lin|exp)"))
        }
    }
}

impl FromStr for DecayFunction {
    type Err = ParseEnumError;

    /// Parses a text to a `DecayFunction`, as
    /// [`DecayFunction::from_string`] does.
    fn from_str(str: &str) -> (r: Result<Self, Self::Err>)
        ensures
            str@ == "lin"@ ==> r == Ok::<DecayFunction, ParseEnumError>(DecayFunction::Linear),
            str@ == "exp"@ ==> r == Ok::<DecayFunction, ParseEnumError>(DecayFunction::Exponential),
            r is Ok <==> str@ == "lin"@ || str@ == "exp"@,
            r matches Err(e) ==> e.0@ == enum_message(
                DecayFunction::error_head(),
                str@,
                DecayFunction::error_tail(),
            ),
    {
        DecayFunction::from_string(str)
    }
}

/// Whether a number is above zero.
pub open spec fn positive(x: Num) -> bool {
    (Num { bits: 0 }).below(x)
}

/// Whether a schedule can be built from these values: an exponential one
/// needs a start and an end above zero.
pub open spec fn schedule_is_valid(start: Num, end: Num, function: DecayFunction) -> bool {
    function == DecayFunction::Exponential ==> positive(start) && positive(end)
}

/// Decay parameters for learning parameters: a value for each epoch, from a
/// start value to an end value.
#[derive(Debug, Clone, Copy, PartialEq, Eq, Structural)]
pub struct DecayParam {
    start: Num,
    end: Num,
    function: DecayFunction,
}

impl DecayParam {
    /// The value of the first epoch.
    pub closed spec fn spec_start(self) -> Num {
        self.start
    }

    /// The value of the last epoch.
    pub closed spec fn spec_end(self) -> Num {
        self.end
    }

    /// The shape in between.
    pub closed spec fn spec_function(self) -> DecayFunction {
        self.function
    }

    /// Every schedule that exists is valid.
    #[verifier::type_invariant]
    pub closed spec fn valid(self) -> bool {
        schedule_is_valid(self.start, self.end, self.function)
    }

    /// Whether the schedule has one value for all epochs.
    pub open spec fn constant(self) -> bool {
        self.spec_start().same_as(self.spec_end())
    }

    /// What the error says when an exponential schedule cannot be built.
    pub open spec fn error_text() -> Seq<char> {
        "An exponential decay needs a start and an end value above zero"@
    }

    /// Creates a learning parameter from start and end value and decay
    /// function. An exponential decay from or to a value that is not above
    /// zero is refused.
    pub fn new(start: Num, end: Num, function: DecayFunction) -> (r: Result<Self, ConfigError>)
        ensures
            r is Ok <==> schedule_is_valid(start, end, function),
            r matches Ok(p) ==> p.spec_start() == start && p.spec_end() == end && p.spec_function()
                == function,
            r matches Err(e) ==> e.0@ == Self::error_text(),
    {
        let ok = match function {
            DecayFunction::Linear => true,
            DecayFunction::Exponential => start.gt(Num::zero()) && end.gt(Num::zero()),
        };
        if ok {
            Ok(DecayParam { start, end, function })
        } else {
            Err(
                ConfigError(
                    "An exponential decay needs a start and an end value above zero".to_owned(),
                ),
            )
        }
    }

    /// Creates a linearly decaying learning parameter from start and end
    /// value.
    pub fn lin(start: Num, end: Num) -> (p: Self)
        ensures
            p.spec_start() == start,
            p.spec_end() == end,
            p.spec_function() == DecayFunction::Linear,
    {
        DecayParam { start, end, function: DecayFunction::Linear }
    }

    /// Creates an exponentially decaying learning parameter from start and
    /// end value, both of which must be above zero.
    pub fn exp(start: Num, end: Num) -> (r: Result<Self, ConfigError>)
        ensures
            r is Ok <==> positive(start) && positive(end),
            r matches Ok(p) ==> p.spec_start() == start && p.spec_end() == end && p.spec_function()
                == DecayFunction::Exponential,
            r matches Err(e) ==> e.0@ == Self::error_text(),
    {
        Self::new(start, end, DecayFunction::Exponential)
    }

    /// The value of the first epoch.
    pub fn start(&self) -> (x: Num)
        ensures
            x == self.spec_start(),
    {
        self.start
    }

    /// The value of the last epoch.
    pub fn end(&self) -> (x: Num)
        ensures
            x == self.spec_end(),
    {
        self.end
    }

    /// The shape of the decay.
    pub fn function(&self) -> (f: DecayFunction)
        ensures
            f == self.spec_function(),
            schedule_is_valid(self.spec_start(), self.spec_end(), f),
    {
        proof {
            use_type_invariant(self);
        }
        self.function
    }

    /// Whether the schedule has one value for all epochs.
    pub fn is_constant(&self) -> (c: bool)
        ensures
            c == self.constant(),
    {
        self.start.same(self.end)
    }
}

/// Layer definition for multi-layered SOMs.
#[derive(Debug, Clone, Copy, PartialEq, Eq, Structural)]
pub struct Layer {
    pub ncols: usize,
    pub weight: Num,
    pub categorical: bool,
    pub metric: Metric,
}

impl Layer {
    /// Creates a new layer.
    pub fn new(ncols: usize, weight: Num, categorical: bool, metric: Metric) -> (l: Self)
        ensures
            l == (Layer { ncols, weight, categorical, metric }),
    {
        Layer { ncols, weight, categorical, metric }
    }

    /// Creates a new continuous layer.
    pub fn cont(ncols: usize, weight: Num) -> (l: Self)
        ensures
            l == (Layer { ncols, weight, categorical: false, metric: Metric::Euclidean }),
    {
        Self::new(ncols, weight, false, Metric::Euclidean)
    }

    /// Creates a new categorical layer.
    pub fn cat(ncols: usize, weight: Num) -> (l: Self)
        ensures
            l == (Layer { ncols, weight, categorical: true, metric: Metric::Tanimoto }),
    {
        Self::new(ncols, weight, true, Metric::Tanimoto)
    }

    /// The number of data columns of the layer.
    pub fn ncols(&self) -> (n: usize)
        ensures
            n == self.ncols,
    {
        self.ncols
    }

    /// The weight of the layer.
    pub fn weight(&self) -> (w: Num)
        ensures
            w == self.weight,
    {
        self.weight
    }

    /// If the layer is categorical.
    pub fn categorical(&self) -> (c: bool)
        ensures
            c == self.categorical,
    {
        self.categorical
    }

    /// The layer's distance metric.
    pub fn metric(&self) -> (m: &Metric)
        ensures
            *m == self.metric,
    {
        &self.metric
    }
}

/// The number of columns of the first `n` layers together.
pub open spec fn width_before(layers: Seq<Layer>, n: int) -> int
    decreases n,
{
    if n <= 0 {
        0
    } else {
        width_before(layers, n - 1) + layers[n - 1].ncols
    }
}

/// The number of columns of all layers together.
pub open spec fn total_width(layers: Seq<Layer>) -> int {
    width_before(layers, layers.len() as int)
}

/// The width before a layer grows with the layer's place.
pub proof fn width_before_grows(layers: Seq<Layer>, i: int, j: int)
    requires
        0 <= i <= j <= layers.len(),
    ensures
        0 <= width_before(layers, i) <= width_before(layers, j),
    decreases j,
{
    if j > 0 {
        if i < j {
            width_before_grows(layers, i, j - 1);
        } else {
            width_before_grows(layers, i - 1, j - 1);
        }
    }
}

/// A layer's columns lie inside the total width.
pub proof fn layer_lies_inside(layers: Seq<Layer>, i: int)
    requires
        0 <= i < layers.len(),
    ensures
        0 <= width_before(layers, i),
        width_before(layers, i) + layers[i].ncols <= total_width(layers),
{
    width_before_grows(layers, 0, i);
    width_before_grows(layers, i + 1, layers.len() as int);
}

/// The kind of search that finds the best matching unit.
#[derive(Debug, Clone, Copy, PartialEq, Eq, Structural)]
pub enum Search {
    /// One layer of numbers: Euclidean distance over all columns.
    Euclidean,
    /// One categorical layer: Tanimoto distance over all columns.
    Tanimoto,
    /// Several layers: the weighted sum of the layers' distances.
    Xyf,
}

/// What a [`SomParams`] holds.
pub struct Params {
    pub epochs: u32,
    pub neighborhood: Neighborhood,
    pub alpha: DecayParam,
    pub radius: DecayParam,
    pub decay: DecayParam,
    pub layers: Seq<Layer>,
    pub start_columns: Seq<usize>,
}

impl Params {
    /// Whether no schedule changes from epoch to epoch.
    pub open spec fn constant(self) -> bool {
        self.alpha.constant() && self.radius.constant() && self.decay.constant()
    }

    /// Whether the first column of each layer is the width of the layers
    /// before it. Without layers there is one start, column zero.
    pub open spec fn starts_fit(self) -> bool {
        if self.layers.len() == 0 {
            self.start_columns == seq![0usize]
        } else {
            &&& self.start_columns.len() == self.layers.len()
            &&& forall|i: int|
                0 <= i < self.layers.len() ==> (#[trigger] self.start_columns[i]) == width_before(
                    self.layers,
                    i,
                )
        }
    }

    /// The parameters fit together.
    pub open spec fn wf(self) -> bool {
        &&& self.epochs >= 1
        &&& epochs_fit(self.epochs, self.alpha, self.radius, self.decay)
        &&& self.starts_fit()
        &&& total_width(self.layers) <= usize::MAX
    }

    /// The kind of search that these layers ask for.
    pub open spec fn search(self) -> Search {
        if self.layers.len() == 0 {
            Search::Euclidean
        } else if self.layers.len() == 1 {
            if self.layers[0].categorical {
                Search::Tanimoto
            } else {
                Search::Euclidean
            }
        } else {
            Search::Xyf
        }
    }
}

/// Whether schedules and a number of epochs fit together: there is at least
/// one epoch, and a schedule that changes has two epochs or more to run
/// through.
pub open spec fn epochs_fit(
    epochs: u32,
    alpha: DecayParam,
    radius: DecayParam,
    decay: DecayParam,
) -> bool {
    epochs >= 2 || (alpha.constant() && radius.constant() && decay.constant())
}

/// SOM training parameters
#[derive(Debug, Clone)]
pub struct SomParams {
    epochs: u32,
    neighborhood: Neighborhood,
    alpha: DecayParam,
    radius: DecayParam,
    decay: DecayParam,
    layers: Vec<Layer>,
    start_columns: Vec<usize>,
}

impl View for SomParams {
    type V = Params;

    closed spec fn view(&self) -> Params {
        Params {
            epochs: self.epochs,
            neighborhood: self.neighborhood,
            alpha: self.alpha,
            radius: self.radius,
            decay: self.decay,
            layers: self.layers@,
            start_columns: self.start_columns@,
        }
    }
}

impl SomParams {
    /// The parameters fit together.
    pub open spec fn wf(&self) -> bool {
        self@.wf()
    }

    /// What the error says when the schedules need more epochs.
    pub open spec fn error_text() -> Seq<char> {
        "A schedule that changes needs at least two epochs"@
    }

    /// Creates parameters for a simple SOM with a single layer.
    pub fn simple(
        epochs: u32,
        neighborhood: Neighborhood,
        alpha: DecayParam,
        radius: DecayParam,
        decay: DecayParam,
    ) -> (r: Result<Self, ConfigError>)
        requires
            epochs >= 1,
        ensures
            r is Ok <==> epochs_fit(epochs, alpha, radius, decay),
            r matches Ok(p) ==> p.wf() && p@ == (Params {
                epochs,
                neighborhood,
                alpha,
                radius,
                decay,
                layers: Seq::<Layer>::empty(),
                start_columns: seq![0usize],
            }),
            r matches Err(e) ==> e.0@ == Self::error_text(),
    {
        if epochs < 2 && !(alpha.is_constant() && radius.is_constant() && decay.is_constant()) {
            return Err(ConfigError("A schedule that changes needs at least two epochs".to_owned()));
        }
        let mut start_columns: Vec<usize> = Vec::new();
        start_columns.push(0);
        let layers: Vec<Layer> = Vec::new();
        assert(start_columns@ =~= seq![0usize]);
        Ok(SomParams { epochs, neighborhood, alpha, radius, decay, layers, start_columns })
    }

    /// Creates parameters for a multi-layered SOM (Super-SOM) using the
    /// X-Y-Fused algorithm (XYF).
    pub fn xyf(
        epochs: u32,
        neighborhood: Neighborhood,
        alpha: DecayParam,
        radius: DecayParam,
        decay: DecayParam,
        layers: Vec<Layer>,
    ) -> (r: Result<Self, ConfigError>)
        requires
            epochs >= 1,
            total_width(layers@) <= usize::MAX,
        ensures
            r is Ok <==> epochs_fit(epochs, alpha, radius, decay),
            r matches Ok(p) ==> {
                &&& p.wf()
                &&& p@.epochs == epochs
                &&& p@.neighborhood == neighborhood
                &&& p@.alpha == alpha
                &&& p@.radius == radius
                &&& p@.decay == decay
                &&& p@.layers == layers@
            },
            r matches Err(e) ==> e.0@ == Self::error_text(),
    {
        if epochs < 2 && !(alpha.is_constant() && radius.is_constant() && decay.is_constant()) {
            return Err(ConfigError("A schedule that changes needs at least two epochs".to_owned()));
        }
        let start_columns = if layers.len() == 0 {
            let mut one: Vec<usize> = Vec::new();
            one.push(0);
            assert(one@ =~= seq![0usize]);
            one
        } else {
            Self::calc_start_columns(layers.as_slice())
        };
        Ok(SomParams { epochs, neighborhood, alpha, radius, decay, layers, start_columns })
    }

    /// The first column of each layer.
    fn calc_start_columns(layers: &[Layer]) -> (starts: Vec<usize>)
        requires
            total_width(layers@) <= usize::MAX,
        ensures
            starts.len() == layers.len(),
            forall|i: int|
                0 <= i < layers.len() ==> (#[trigger] starts[i]) == width_before(layers@, i),
    {
        let mut result: Vec<usize> = Vec::new();
        let mut start_col: usize = 0;
        let mut i: usize = 0;
        while i < layers.len()
            invariant
                i <= layers.len(),
                total_width(layers@) <= usize::MAX,
                result.len() == i,
                start_col == width_before(layers@, i as int),
                forall|k: int| 0 <= k < i ==> (#[trigger] result[k]) == width_before(layers@, k),
            decreases layers.len() - i,
        {
            result.push(start_col);
            proof {
                layer_lies_inside(layers@, i as int);
            }
            start_col = start_col + layers[i].ncols;
            i += 1;
        }
        result
    }

    /// The number of training epochs.
    pub fn epochs(&self) -> (n: u32)
        ensures
            n == self@.epochs,
    {
        self.epochs
    }

    /// The neighborhood function.
    pub fn neighborhood(&self) -> (n: Neighborhood)
        ensures
            n == self@.neighborhood,
    {
        self.neighborhood
    }

    /// The schedule of the learning rate.
    pub fn alpha(&self) -> (p: DecayParam)
        ensures
            p == self@.alpha,
    {
        self.alpha
    }

    /// The schedule of the neighborhood radius.
    pub fn radius(&self) -> (p: DecayParam)
        ensures
            p == self@.radius,
    {
        self.radius
    }

    /// The schedule of the weight decay.
    pub fn decay(&self) -> (p: DecayParam)
        ensures
            p == self@.decay,
    {
        self.decay
    }

    /// The layer definitions.
    pub fn layers(&self) -> (layers: &[Layer])
        ensures
            layers@ == self@.layers,
    {
        self.layers.as_slice()
    }

    /// The first column index of each layer.
    pub fn start_columns(&self) -> (starts: &[usize])
        ensures
            starts@ == self@.start_columns,
    {
        self.start_columns.as_slice()
    }

    /// The kind of search that finds the best matching unit: without layers
    /// and for one layer of numbers the Euclidean, for one categorical layer
    /// the Tanimoto, for several layers the weighted one.
    pub fn search(&self) -> (s: Search)
        ensures
            s == self@.search(),
    {
        if self.layers.len() == 0 {
            Search::Euclidean
        } else if self.layers.len() == 1 {
            if self.layers[0].categorical {
                Search::Tanimoto
            } else {
                Search::Euclidean
            }
        } else {
            Search::Xyf
        }
    }

    /// The columns of one layer: the first, and the one after the last.
    pub fn layer_range(&self, layer: usize) -> (range: (usize, usize))
        requires
            self.wf(),
            layer < self@.layers.len(),
        ensures
            range.0 == width_before(self@.layers, layer as int),
            range.1 == range.0 + self@.layers[layer as int].ncols,
            range.1 <= total_width(self@.layers),
    {
        proof {
            layer_lies_inside(self@.layers, layer as int);
        }
        let start = self.start_columns[layer];
        (start, start + self.layers[layer].ncols)
    }
}

/// What a [`Som`] holds.
pub struct SomView {
    /// The number of columns of a sample and of a unit's weights.
    pub dims: nat,
    /// The height of the grid.
    pub nrows: nat,
    /// The width of the grid.
    pub ncols: nat,
    /// The units' weights: row `i` belongs to the unit in row `i / ncols` and
    /// column `i % ncols` of the grid.
    pub weights: Table,
    /// The training parameters.
    pub params: Params,
    /// The number of epochs that are done.
    pub epoch: u32,
    /// The seed of the random choices, where they are to be repeatable.
    pub seed: Option<u64>,
    /// The squared distance between every two units.
    pub distances: Seq<u64>,
}

impl SomView {
    /// The number of units.
    pub open spec fn size(self) -> nat {
        self.nrows * self.ncols
    }

    /// The map is well formed: the weights have one row for each unit and
    /// one column for each dimension, no more epochs are done than there are,
    /// the distances are those of the grid, and the layers fill the columns.
    pub open spec fn wf(self) -> bool {
        &&& self.params.wf()
        &&& self.weights.wf()
        &&& self.weights.nrows == self.nrows * self.ncols
        &&& self.weights.ncols == self.dims
        &&& self.epoch <= self.params.epochs
        &&& is_distance_table(self.distances, self.nrows, self.ncols)
        &&& (self.params.layers.len() > 0 ==> total_width(self.params.layers) == self.dims)
    }

    /// Whether all epochs are done.
    pub open spec fn done(self) -> bool {
        self.epoch >= self.params.epochs
    }

    /// The units within a squared distance of `limit` of the unit `center`,
    /// in ascending order.
    pub open spec fn ball(self, center: int, limit: int) -> Seq<usize> {
        ball(self.ncols, self.size() as int, center, limit)
    }
}

/// What one component of a unit's weights becomes when the unit is drawn
/// towards a sample: the moved value where the sample has data, the old one
/// where it has none.
pub open spec fn adapted(old_weight: Num, sample: Num, moved: Num) -> Num {
    if sample.missing() {
        old_weight
    } else {
        moved
    }
}

/// Whether the squared number after `reach` is at most `limit`.
fn next_fits(reach: usize, limit: u64) -> (fits: bool)
    ensures
        fits == ((reach + 1) * (reach + 1) <= limit),
{
    if reach >= 0xffff_ffff {
        assert((reach + 1) * (reach + 1) > limit) by (nonlinear_arith)
            requires
                reach + 1 >= 0x1_0000_0000,
                limit < 0x1_0000_0000_0000_0000,
        ;
        false
    } else {
        let next: u64 = reach as u64 + 1;
        assert(next * next <= 0xffff_ffff * 0xffff_ffff) by (nonlinear_arith)
            requires
                0 <= next <= 0xffff_ffff,
        ;
        next * next <= limit
    }
}

/// The standard generator of random numbers of the `rand` crate. Nothing of
/// its state is seen here.
#[verifier::external_type_specification]
#[verifier::external_body]
pub struct ExStdRng(rand::rngs::StdRng);

/// A seed from the thread-local generator: `rand::random`. Nothing is
/// claimed of the number.
#[verifier::external_body]
fn fresh_seed() -> (seed: u64) {
    rand::random::<u64>()
}

/// A standard generator made from a seed: `rand::SeedableRng::seed_from_u64`.
/// Nothing is claimed of the generator.
#[verifier::external_body]
fn generator(seed: u64) -> (rng: rand::rngs::StdRng) {
    rand::rngs::StdRng::seed_from_u64(seed)
}

/// Shuffles a list in place: `rand::seq::SliceRandom::shuffle`. The shuffle
/// only swaps elements, so the list holds afterwards what it held before,
/// in some order. Which order is not claimed.
#[verifier::external_body]
fn shuffle(indices: &mut Vec<usize>, rng: &mut rand::rngs::StdRng)
    ensures
        final(indices)@.to_multiset() == old(indices)@.to_multiset(),
{
    indices.shuffle(rng);
}

/// The numbers from zero up to `n`, in order.
pub open spec fn count_up(n: nat) -> Seq<usize> {
    Seq::new(n, |i: int| i as usize)
}

/// Whether `order` holds places of a list of `samples` items, none of them
/// twice.
pub open spec fn is_selection(order: Seq<usize>, samples: nat) -> bool {
    &&& order.no_duplicates()
    &&& forall|i: int| 0 <= i < order.len() ==> (#[trigger] order[i]) < samples
}

/// A list that holds what the numbers below `n` hold, in any order, holds
/// each of them once.
pub proof fn shuffled_is_selection(order: Seq<usize>, n: nat)
    requires
        n <= usize::MAX,
        order.to_multiset() == count_up(n).to_multiset(),
    ensures
        order.len() == n,
        is_selection(order, n),
{
    broadcast use vstd::seq_lib::group_to_multiset_ensures;

    let all = count_up(n);
    assert(order.to_multiset().len() == order.len());
    assert(all.to_multiset().len() == all.len());
    assert(all.no_duplicates());
    all.lemma_multiset_has_no_duplicates();
    order.lemma_multiset_has_no_duplicates_conv();
    assert forall|i: int| 0 <= i < order.len() implies (#[trigger] order[i]) < n by {
        assert(order.contains(order[i]));
        assert(all.to_multiset().count(order[i]) > 0);
        assert(all.contains(order[i]));
    }
}

/// Super-SOM core type.
#[derive(Debug, Clone)]
pub struct Som {
    dims: usize,
    nrows: usize,
    ncols: usize,
    weights: DataFrame,
    params: SomParams,
    epoch: u32,
    seed: Option<u64>,
    distances_matrix: Vec<u64>,
}

impl View for Som {
    type V = SomView;

    closed spec fn view(&self) -> SomView {
        SomView {
            dims: self.dims as nat,
            nrows: self.nrows as nat,
            ncols: self.ncols as nat,
            weights: self.weights@,
            params: self.params@,
            epoch: self.epoch,
            seed: self.seed,
            distances: self.distances_matrix@,
        }
    }
}

impl Som {
    /// The map is well formed.
    pub open spec fn wf(&self) -> bool {
        self@.wf()
    }

    /// Creates a new SOM or Super-SOM. All weights are zero: give the map
    /// its first weights with [`Som::init_weights`].
    pub fn new(names: &[&str], nrows: usize, ncols: usize, params: SomParams) -> (som: Self)
        requires
            params.wf(),
            nrows * ncols <= usize::MAX,
            (nrows * ncols) * names.len() <= usize::MAX,
            (nrows * ncols) * (nrows * ncols) <= usize::MAX,
            params@.layers.len() > 0 ==> total_width(params@.layers) == names.len(),
        ensures
            som.wf(),
            som@.dims == names.len(),
            som@.nrows == nrows,
            som@.ncols == ncols,
            som@.params == params@,
            som@.epoch == 0,
            som@.seed == None::<u64>,
            som@.weights.names == crate::data::texts(names@),
            som@.weights.cells == Seq::new(
                ((nrows * ncols) * names.len()) as nat,
                |i: int| Num { bits: 0 },
            ),
    {
        Som {
            dims: names.len(),
            nrows,
            ncols,
            weights: DataFrame::filled(nrows * ncols, names, Num::zero()),
            distances_matrix: Self::calc_distance_matix(nrows, ncols),
            params,
            epoch: 0,
            seed: None,
        }
    }

    /// Makes the random choices of the map repeatable.
    pub fn with_seed(self, seed: u64) -> (som: Self)
        ensures
            som@ == (SomView { seed: Some(seed), ..self@ }),
    {
        let mut som = self;
        som.seed = Some(seed);
        som
    }

    /// Pre-calculates the unit-to-unit distance matrix.
    fn calc_distance_matix(nrows: usize, ncols: usize) -> (table: Vec<u64>)
        requires
            nrows * ncols <= usize::MAX,
            (nrows * ncols) * (nrows * ncols) <= usize::MAX,
        ensures
            is_distance_table(table@, nrows as nat, ncols as nat),
    {
        let size: usize = nrows * ncols;
        let mut table: Vec<u64> = Vec::new();
        let mut a: usize = 0;
        while a < size
            invariant
                size == nrows * ncols,
                size * size <= usize::MAX,
                a <= size,
                table.len() == a * size,
                forall|x: int, y: int|
                    0 <= x < a && 0 <= y < size ==> #[trigger] table[pair(size as nat, x, y)]
                        == grid_distance_sq(ncols as nat, x, y),
            decreases size - a,
        {
            let mut b: usize = 0;
            while b < size
                invariant
                    size == nrows * ncols,
                    size * size <= usize::MAX,
                    a < size,
                    b <= size,
                    table.len() == a * size + b,
                    forall|x: int, y: int|
                        0 <= x < a && 0 <= y < size ==> #[trigger] table[pair(size as nat, x, y)]
                            == grid_distance_sq(ncols as nat, x, y),
                    forall|y: int|
                        0 <= y < b ==> #[trigger] table[pair(size as nat, a as int, y)]
                            == grid_distance_sq(ncols as nat, a as int, y),
                decreases size - b,
            {
                proof {
                    row_col_of_unit(nrows as nat, ncols as nat, a as int);
                    row_col_of_unit(nrows as nat, ncols as nat, b as int);
                    grid_distance_is_bounded(nrows as nat, ncols as nat, a as int, b as int);
                }
                let (ra, ca) = (a / ncols, a % ncols);
                let (rb, cb) = (b / ncols, b % ncols);
                let dr: usize = if ra > rb {
                    ra - rb
                } else {
                    rb - ra
                };
                let dc: usize = if ca > cb {
                    ca - cb
                } else {
                    cb - ca
                };
                proof {
                    let x = ra as int - rb as int;
                    let y = ca as int - cb as int;
                    assert(dr * dr == x * x) by (nonlinear_arith)
                        requires
                            dr == x || dr == -x,
                    ;
                    assert(dc * dc == y * y) by (nonlinear_arith)
                        requires
                            dc == y || dc == -y,
                    ;
                    assert(x * x >= 0) by (nonlinear_arith);
                    assert(y * y >= 0) by (nonlinear_arith);
                }
                let ghost before = table@;
                table.push((dr * dr + dc * dc) as u64);
                proof {
                    assert forall|x: int, y: int| 0 <= x < a && 0 <= y < size implies
                        #[trigger] table[pair(
                        size as nat,
                        x,
                        y,
                    )] == grid_distance_sq(ncols as nat, x, y) by {
                        row_in_table(a as nat, size as nat, x);
                        assert(table[pair(size as nat, x, y)] == before[pair(size as nat, x, y)]);
                    }
                    assert forall|y: int| 0 <= y < b + 1 implies #[trigger] table[pair(
                        size as nat,
                        a as int,
                        y,
                    )] == grid_distance_sq(ncols as nat, a as int, y) by {
                        if y < b {
                            assert(table[pair(size as nat, a as int, y)] == before[pair(
                                size as nat,
                                a as int,
                                y,
                            )]);
                        }
                    }
                }
                b += 1;
            }
            proof {
                assert((a + 1) * size == a * size + size) by (nonlinear_arith);
            }
            a += 1;
        }
        table
    }

    /// The SOM's parameters.
    pub fn params(&self) -> (p: &SomParams)
        ensures
            p@ == self@.params,
    {
        &self.params
    }

    /// The (row, col) of a unit in the grid.
    pub fn to_row_col(&self, index: usize) -> (rc: (usize, usize))
        requires
            self@.ncols > 0,
        ensures
            rc.0 == index as int / self@.ncols as int,
            rc.1 == index as int % self@.ncols as int,
            rc.0 * self@.ncols + rc.1 == index,
            rc.1 < self@.ncols,
    {
        proof {
            vstd::arithmetic::div_mod::lemma_fundamental_div_mod(index as int, self.ncols as int);
            assert(self.ncols * (index as int / self.ncols as int) == (index as int
                / self.ncols as int) * self.ncols) by (nonlinear_arith);
        }
        (index / self.ncols, index % self.ncols)
    }

    /// The unit at (row, col) of the grid.
    pub fn to_index(&self, row: i32, col: i32) -> (index: usize)
        requires
            self.wf(),
            0 <= row < self@.nrows,
            0 <= col < self@.ncols,
        ensures
            index == row * self@.ncols + col,
            index < self@.size(),
    {
        proof {
            crate::data::cell_in_table(self@.nrows, self@.ncols, row as int, col as int);
        }
        let total = self.weights.nrows();
        (row as usize) * self.ncols + (col as usize)
    }

    /// The units' weights, one row for each unit.
    pub fn weights(&self) -> (w: &DataFrame)
        ensures
            w@ == self@.weights,
    {
        &self.weights
    }

    /// The weights of the unit at (row, col).
    pub fn weights_at(&self, row: usize, col: usize) -> (w: &[Num])
        requires
            self.wf(),
            row < self@.nrows,
            col < self@.ncols,
        ensures
            w@ == self@.weights.row(row * self@.ncols + col),
    {
        proof {
            crate::data::cell_in_table(self@.nrows, self@.ncols, row as int, col as int);
        }
        let total = self.weights.nrows();
        self.weights.get_row(row * self.ncols + col)
    }

    /// The number of columns (width) of the SOM.
    pub fn ncols(&self) -> (n: usize)
        ensures
            n == self@.ncols,
    {
        self.ncols
    }

    /// The number of rows (height) of the SOM.
    pub fn nrows(&self) -> (n: usize)
        ensures
            n == self@.nrows,
    {
        self.nrows
    }

    /// The size of the SOM as (rows, cols).
    pub fn size(&self) -> (s: (usize, usize))
        ensures
            s.0 == self@.nrows,
            s.1 == self@.ncols,
    {
        (self.nrows, self.ncols)
    }

    /// The number of columns of a sample.
    pub fn dims(&self) -> (n: usize)
        ensures
            n == self@.dims,
    {
        self.dims
    }

    /// The number of epochs that are done.
    pub fn epochs_done(&self) -> (n: u32)
        ensures
            n == self@.epoch,
    {
        self.epoch
    }

    /// Whether all epochs are done.
    pub fn is_done(&self) -> (d: bool)
        ensures
            d == self@.done(),
    {
        self.epoch >= self.params.epochs()
    }

    /// The seed of the random choices, if they are to be repeatable.
    pub fn seed(&self) -> (s: Option<u64>)
        ensures
            s == self@.seed,
    {
        self.seed
    }

    /// The squared planar distance between two units.
    pub fn grid_distance_sq(&self, a: usize, b: usize) -> (d: u64)
        requires
            self.wf(),
            a < self@.size(),
            b < self@.size(),
        ensures
            d == grid_distance_sq(self@.ncols, a as int, b as int),
    {
        proof {
            crate::data::cell_in_table(self@.size(), self@.size(), a as int, b as int);
            assert(self.distances_matrix@[pair(self@.size(), a as int, b as int)]
                == grid_distance_sq(self@.ncols, a as int, b as int));
        }
        let size = self.weights.nrows();
        let total = self.distances_matrix.len();
        self.distances_matrix[a * size + b]
    }

    /// Gives the map its weights: all cells, row after row.
    pub fn init_weights(&mut self, values: &[Num])
        requires
            old(self).wf(),
            values.len() == old(self)@.weights.cells.len(),
        ensures
            final(self).wf(),
            final(self)@ == (SomView {
                weights: Table { cells: values@, ..old(self)@.weights },
                ..old(self)@
            }),
    {
        let mut i: usize = 0;
        while i < values.len()
            invariant
                i <= values.len(),
                values.len() == old(self)@.weights.cells.len(),
                self@ == (SomView { weights: self@.weights, ..old(self)@ }),
                self@.weights == (Table { cells: self@.weights.cells, ..old(self)@.weights }),
                self@.weights.cells.len() == values.len(),
                forall|k: int| 0 <= k < i ==> self@.weights.cells[k] == values[k],
            decreases values.len() - i,
        {
            self.weights.set_at(i, values[i]);
            i += 1;
        }
        assert(self@.weights.cells =~= values@);
    }

    /// The units that a training step round the unit `center` draws towards
    /// the sample: those within a squared planar distance of `limit`, in
    /// ascending order. Only the rectangle of units is searched whose rows
    /// and columns are no further from the center's than the root of
    /// `limit`.
    pub fn neighborhood(&self, center: usize, limit: u64) -> (units: Vec<usize>)
        requires
            self.wf(),
            center < self@.size(),
        ensures
            units@ == self@.ball(center as int, limit as int),
    {
        let size = self.weights.nrows();
        let ghost w = self@.ncols;
        let ghost h = self@.nrows;
        let ghost c0 = center as int;
        let ghost lim = limit as int;
        proof {
            row_col_of_unit(h, w, c0);
        }
        let (row, col) = self.to_row_col(center);
        let bound = if self.nrows > self.ncols {
            self.nrows
        } else {
            self.ncols
        };
        let mut reach: usize = 0;
        while reach < bound && next_fits(reach, limit)
            invariant
                reach <= bound,
                reach * reach <= limit,
            decreases bound - reach,
        {
            reach += 1;
        }
        let r_min = if row >= reach {
            row - reach
        } else {
            0
        };
        let r_max = if reach >= self.nrows - 1 - row {
            self.nrows - 1
        } else {
            row + reach
        };
        let c_min = if col >= reach {
            col - reach
        } else {
            0
        };
        let c_max = if reach >= self.ncols - 1 - col {
            self.ncols - 1
        } else {
            col + reach
        };
        let mut units: Vec<usize> = Vec::new();
        let mut r = r_min;
        proof {
            row_in_table(h, w, r_min as int);
            assert forall|u: int| 0 <= u < r_min * w implies #[trigger] grid_distance_sq(w, c0, u)
                > lim by {
                row_col_of_unit(r_min as nat, w, u);
                far_rows_and_columns_are_outside(w, c0, u, reach as int, lim);
            }
            ball_skips_the_far(w, 0, r_min * w, c0, lim);
        }
        while r <= r_max
            invariant
                self.wf(),
                w == self@.ncols,
                h == self@.nrows,
                self.ncols == w,
                c0 == center,
                lim == limit,
                center < self@.size(),
                row == c0 / (w as int),
                col == c0 % (w as int),
                row < h,
                col < w,
                reach * reach <= limit,
                reach == bound || (reach + 1) * (reach + 1) > limit,
                bound >= h,
                bound >= w,
                r_min <= r <= r_max + 1,
                r_max < h,
                size == h * w,
                c_min <= c_max < w,
                c_min == if col >= reach { col - reach } else { 0 },
                c_max == if reach >= w - 1 - col { w - 1 } else { col + reach },
                units@ == ball(w, r * w, c0, lim),
            decreases r_max + 1 - r,
        {
            let mut c = c_min;
            proof {
                row_in_table(h, w, r as int);
                assert forall|u: int| r * w <= u < r * w + c_min implies
                    #[trigger] grid_distance_sq(
                    w,
                    c0,
                    u,
                ) > lim by {
                    unit_of_row_col(w, r as int, u - r * w);
                    far_rows_and_columns_are_outside(w, c0, u, reach as int, lim);
                }
                ball_skips_the_far(w, r * w, r * w + c_min, c0, lim);
            }
            while c <= c_max
                invariant
                    self.wf(),
                    w == self@.ncols,
                    h == self@.nrows,
                    self.ncols == w,
                    c0 == center,
                    lim == limit,
                    center < self@.size(),
                    r < h,
                    size == h * w,
                    c_min <= c <= c_max + 1,
                    c_max < w,
                    units@ == ball(w, r * w + c, c0, lim),
                decreases c_max + 1 - c,
            {
                proof {
                    crate::data::cell_in_table(h, w, r as int, c as int);
                }
                let index = r * self.ncols + c;
                let d = self.grid_distance_sq(center, index);
                if d <= limit {
                    units.push(index);
                }
                assert(units@ == ball(w, (r * w + c) + 1, c0, lim));
                c += 1;
            }
            proof {
                assert((r + 1) * w == r * w + w) by (nonlinear_arith);
                assert forall|u: int| r * w + c_max + 1 <= u < (r + 1) * w implies
                    #[trigger] grid_distance_sq(
                    w,
                    c0,
                    u,
                ) > lim by {
                    unit_of_row_col(w, r as int, u - r * w);
                    far_rows_and_columns_are_outside(w, c0, u, reach as int, lim);
                }
                ball_skips_the_far(w, r * w + c_max + 1, (r + 1) * w, c0, lim);
            }
            r += 1;
        }
        proof {
            assert((r_max + 1) * w <= h * w) by (nonlinear_arith)
                requires
                    r_max + 1 <= h,
                    w >= 0,
            ;
            assert forall|u: int| (r_max + 1) * w <= u < h * w implies #[trigger] grid_distance_sq(
                w,
                c0,
                u,
            ) > lim by {
                row_col_of_unit(h, w, u);
                let q = u / (w as int);
                assert(q >= r_max + 1) by (nonlinear_arith)
                    requires
                        u == q * w + u % (w as int),
                        u % (w as int) < w,
                        (r_max + 1) * w <= u,
                        w > 0,
                ;
                far_rows_and_columns_are_outside(w, c0, u, reach as int, lim);
            }
            ball_skips_the_far(w, (r_max + 1) * w, (h * w) as int, c0, lim);
        }
        units
    }

    /// Draws one unit towards a sample: each component of the unit's
    /// weights for which the sample has data takes the moved value; where the
    /// sample has none, the weight stays. No other unit changes.
    pub fn adapt(&mut self, unit: usize, sample: &[Num], moved: &[Num])
        requires
            old(self).wf(),
            unit < old(self)@.size(),
            sample.len() == old(self)@.dims,
            moved.len() == old(self)@.dims,
        ensures
            final(self).wf(),
            final(self)@ == (SomView { weights: final(self)@.weights, ..old(self)@ }),
            final(self)@.weights == (Table {
                cells: final(self)@.weights.cells,
                ..old(self)@.weights
            }),
            final(self)@.weights.row(unit as int) == Seq::new(
                old(self)@.dims,
                |k: int| adapted(old(self)@.weights.row(unit as int)[k], sample[k], moved[k]),
            ),
            forall|u: int|
                0 <= u < old(self)@.size() && u != unit ==> #[trigger] final(self)@.weights.row(u)
                    == old(self)@.weights.row(u),
    {
        proof {
            row_in_table(self@.size(), self@.dims, unit as int);
        }
        let mut k: usize = 0;
        while k < self.dims
            invariant
                self.wf(),
                unit < self@.size(),
                sample.len() == self@.dims,
                moved.len() == self@.dims,
                k <= self.dims,
                self.dims == self@.dims,
                self@ == (SomView { weights: self@.weights, ..old(self)@ }),
                self@.weights == (Table { cells: self@.weights.cells, ..old(self)@.weights }),
                self@.weights.row(unit as int).len() == self@.dims,
                forall|j: int|
                    0 <= j < k ==> self@.weights.row(unit as int)[j] == adapted(
                        old(self)@.weights.row(unit as int)[j],
                        sample[j],
                        moved[j],
                    ),
                forall|j: int|
                    k <= j < self@.dims ==> self@.weights.row(unit as int)[j] == old(
                        self,
                    )@.weights.row(unit as int)[j],
                forall|u: int|
                    0 <= u < self@.size() && u != unit ==> #[trigger] self@.weights.row(u) == old(
                        self,
                    )@.weights.row(u),
            decreases self.dims - k,
        {
            if !sample[k].is_nan() {
                self.weights.set(unit, k, moved[k]);
            }
            k += 1;
        }
        proof {
            row_in_table(self@.size(), self@.dims, unit as int);
            assert(self@.weights.row(unit as int) =~= Seq::new(
                old(self)@.dims,
                |k: int| adapted(old(self)@.weights.row(unit as int)[k], sample[k], moved[k]),
            ));
        }
    }

    /// Trains the SOM for a single sample whose best matching unit is
    /// `nearest`. The units within a squared planar distance of `limit` of
    /// it are drawn towards the sample: `moved[i]` holds the new weights of
    /// the `i`-th of them, in the order of [`Som::neighborhood`]. No unit
    /// further away changes.
    pub fn train(&mut self, sample: &[Num], nearest: usize, limit: u64, moved: &[Vec<Num>])
        requires
            old(self).wf(),
            nearest < old(self)@.size(),
            sample.len() == old(self)@.dims,
            moved.len() == old(self)@.ball(nearest as int, limit as int).len(),
            forall|i: int| 0 <= i < moved.len() ==> (#[trigger] moved[i]).len() == old(self)@.dims,
        ensures
            final(self).wf(),
            final(self)@ == (SomView { weights: final(self)@.weights, ..old(self)@ }),
            final(self)@.weights == (Table {
                cells: final(self)@.weights.cells,
                ..old(self)@.weights
            }),
            forall|i: int|
                #![trigger old(self)@.ball(nearest as int, limit as int)[i]]
                0 <= i < moved.len() ==> final(self)@.weights.row(
                    old(self)@.ball(nearest as int, limit as int)[i] as int,
                ) == Seq::new(
                    old(self)@.dims,
                    |k: int|
                        adapted(
                            old(self)@.weights.row(
                                old(self)@.ball(nearest as int, limit as int)[i] as int,
                            )[k],
                            sample[k],
                            moved[i][k],
                        ),
                ),
            forall|u: int|
                0 <= u < old(self)@.size() && grid_distance_sq(old(self)@.ncols, nearest as int, u)
                    > limit ==> #[trigger] final(self)@.weights.row(u) == old(self)@.weights.row(u),
    {
        let units = self.neighborhood(nearest, limit);
        let total = self.weights.nrows();
        let ghost size = self@.size() as int;
        proof {
            ball_holds_the_near(self@.ncols, size, nearest as int, limit as int);
        }
        let mut i: usize = 0;
        while i < units.len()
            invariant
                self.wf(),
                i <= units.len(),
                size == old(self)@.size(),
                units@ == old(self)@.ball(nearest as int, limit as int),
                units.len() == moved.len(),
                sample.len() == old(self)@.dims,
                forall|j: int| 0 <= j < moved.len() ==>
                    (#[trigger] moved[j]).len() == old(self)@.dims,
                forall|j: int| 0 <= j < units.len() ==> 0 <= (#[trigger] units[j]) < size,
                forall|a: int, b: int|
                    0 <= a < b < units.len() ==> (#[trigger] units[a]) < (#[trigger] units[b]),
                self@ == (SomView { weights: self@.weights, ..old(self)@ }),
                self@.weights == (Table { cells: self@.weights.cells, ..old(self)@.weights }),
                forall|j: int|
                    0 <= j < i ==> #[trigger] self@.weights.row(units[j] as int) == Seq::new(
                        old(self)@.dims,
                        |k: int|
                            adapted(
                                old(self)@.weights.row(units[j] as int)[k],
                                sample[k],
                                moved[j][k],
                            ),
                    ),
                forall|u: int|
                    0 <= u < size && (forall|j: int| 0 <= j < i ==> units[j] != u)
                        ==> #[trigger] self@.weights.row(u) == old(self)@.weights.row(u),
            decreases units.len() - i,
        {
            let unit = units[i];
            let ghost before = self@.weights;
            assert(before.row(unit as int) == old(self)@.weights.row(unit as int));
            self.adapt(unit, sample, moved[i].as_slice());
            proof {
                assert forall|j: int| 0 <= j < i + 1 implies #[trigger] self@.weights.row(
                    units[j] as int,
                ) == Seq::new(
                    old(self)@.dims,
                    |k: int|
                        adapted(old(self)@.weights.row(units[j] as int)[k], sample[k], moved[j][k]),
                ) by {
                    if j < i {
                        assert(units[j] < units[i as int]);
                        assert(self@.weights.row(units[j] as int) == before.row(units[j] as int));
                    }
                }
                assert forall|u: int|
                    0 <= u < size && (forall|j: int| 0 <= j < i + 1 ==> units[j] != u) implies
                        #[trigger] self@.weights.row(
                    u,
                ) == old(self)@.weights.row(u) by {
                    assert(units[i as int] != u);
                    assert(self@.weights.row(u) == before.row(u));
                }
            }
            i += 1;
        }
        proof {
            assert forall|u: int|
                0 <= u < size && grid_distance_sq(old(self)@.ncols, nearest as int, u)
                    > limit implies
                        #[trigger] self@.weights.row(u) == old(self)@.weights.row(u) by {
                assert forall|j: int| 0 <= j < units.len() implies units[j] != u by {
                    let x = units[j];
                }
            }
        }
    }

    /// Plans one epoch of training. When all epochs are done there is
    /// nothing to plan. Otherwise the plan lists the samples to train with,
    /// by their rows, in the order of training: `count` rows drawn from a
    /// random order of all `samples` rows, or all of them where `count` is
    /// left out or larger.
    pub fn epoch(&self, samples: usize, count: Option<usize>) -> (plan: Option<Vec<usize>>)
        requires
            self.wf(),
        ensures
            plan is None <==> self@.done(),
            plan matches Some(order) ==> {
                &&& order.len() == match count {
                    Some(n) => if n < samples { n } else { samples },
                    None => samples,
                }
                &&& is_selection(order@, samples as nat)
            },
    {
        if self.epoch >= self.params.epochs() {
            return None;
        }
        let mut indices: Vec<usize> = Vec::new();
        let mut i: usize = 0;
        while i < samples
            invariant
                i <= samples,
                indices.len() == i,
                forall|k: int| 0 <= k < i ==> indices[k] == k,
            decreases samples - i,
        {
            indices.push(i);
            i += 1;
        }
        assert(indices@ =~= count_up(samples as nat));
        let seed = match self.seed {
            Some(seed) => seed.wrapping_add(self.epoch as u64),
            None => fresh_seed(),
        };
        let mut rng = generator(seed);
        shuffle(&mut indices, &mut rng);
        proof {
            shuffled_is_selection(indices@, samples as nat);
        }
        let cnt = match count {
            Some(n) => if n < samples {
                n
            } else {
                samples
            },
            None => samples,
        };
        indices.truncate(cnt);
        Some(indices)
    }

    /// Ends an epoch of training: the weights take their decayed values,
    /// all cells row after row, and the epoch is counted.
    pub fn finish_epoch(&mut self, decayed: &[Num])
        requires
            old(self).wf(),
            !old(self)@.done(),
            decayed.len() == old(self)@.weights.cells.len(),
        ensures
            final(self).wf(),
            final(self)@ == (SomView {
                weights: Table { cells: decayed@, ..old(self)@.weights },
                epoch: (old(self)@.epoch + 1) as u32,
                ..old(self)@
            }),
    {
        self.init_weights(decayed);
        self.epoch = self.epoch + 1;
    }
}

/// The distance between two units of a map is the same in both directions,
/// and a unit has distance zero to itself.
pub proof fn distances_are_symmetric(som: SomView, a: int, b: int)
    requires
        som.wf(),
        0 <= a < som.size(),
        0 <= b < som.size(),
    ensures
        som.distances[pair(som.size(), a, b)] == som.distances[pair(som.size(), b, a)],
        som.distances[pair(som.size(), a, a)] == 0,
{
    crate::map::grid::grid_distance_is_symmetric(som.ncols, a, b);
}

/// The weights of a map have one row for each unit of its grid and one
/// column for each dimension, whatever was done to the map.
pub proof fn shape_is_stable(som: SomView)
    requires
        som.wf(),
    ensures
        som.weights.nrows == som.nrows * som.ncols,
        som.weights.ncols == som.dims,
        som.weights.cells.len() == (som.nrows * som.ncols) * som.dims,
        som.epoch <= som.params.epochs,
{
}

} // verus!
