//! Nearest-neighbor search: the choice of the nearest among distances.

use crate::data::DataFrame;
use crate::num::{all_missing, argmin, first_least, Num, LARGEST};
use vstd::prelude::*;

verus! {

/// Whether `(index, distance)` is the nearest of a list of distances: the
/// first place that holds a least distance, missing ones left aside, and the
/// distance there. Where every distance is missing, place zero and the
/// largest finite number.
pub open spec fn is_nearest(distances: Seq<Num>, found: (usize, Num)) -> bool {
    if all_missing(distances) {
        found.0 == 0 && found.1.bits == LARGEST
    } else {
        first_least(distances, found.0 as int) && found.1 == distances[found.0 as int]
    }
}

/// The nearest of a list of distances, one for each row searched.
/// Missing distances are ignored; of equal distances the first wins.
/// # Returns
/// (index, distance)
pub fn nearest_neighbor(distances: &[Num]) -> (found: (usize, Num))
    ensures
        is_nearest(distances@, found),
{
    match argmin(distances) {
        Some(i) => (i, distances[i]),
        None => (0, Num::largest()),
    }
}

/// The nearest for many starting points. Row `i` of `distances` holds the
/// distances from starting point `i` to every row searched.
/// # Returns
/// Vec(index, distance), one for each starting point
pub fn nearest_neighbors(distances: &DataFrame, result: Vec<(usize, Num)>) -> (found: Vec<
    (usize, Num),
>)
    requires
        distances.wf(),
        result.len() == distances@.nrows,
    ensures
        found.len() == distances@.nrows,
        forall|i: int| 0 <= i < found.len() ==> is_nearest(distances@.row(i), #[trigger] found[i]),
{
    let mut result = result;
    let mut i: usize = 0;
    while i < distances.nrows()
        invariant
            distances.wf(),
            i <= distances@.nrows,
            result.len() == distances@.nrows,
            forall|k: int| 0 <= k < i ==> is_nearest(distances@.row(k), #[trigger] result[k]),
        decreases distances@.nrows - i,
    {
        let found = nearest_neighbor(distances.get_row(i));
        result.set(i, found);
        i += 1;
    }
    result
}

/// The nearest unit is a least distance, and no earlier unit is as near.
pub proof fn nearest_is_first_minimum(distances: Seq<Num>, found: (usize, Num), other: int)
    requires
        is_nearest(distances, found),
        0 <= other < distances.len(),
        !distances[other].missing(),
    ensures
        !distances[other].below(found.1),
        other < found.0 ==> found.1.below(distances[other]),
        found.1 == distances[found.0 as int],
{
}

} // verus!
