//! The grid: units in rows and columns, the planar distance between them,
//! and the units within a distance of one of them.
//!
//! Distances between units are kept squared: the square of a planar distance
//! between two units is a whole number, and one distance is below another
//! exactly when its square is.

use vstd::arithmetic::div_mod::{lemma_fundamental_div_mod, lemma_fundamental_div_mod_converse};
use vstd::prelude::*;

verus! {

/// The squared planar distance between two units of a grid with `ncols`
/// columns, unit `i` standing in row `i / ncols` and column `i % ncols`.
pub open spec fn grid_distance_sq(ncols: nat, a: int, b: int) -> int {
    let dr = a / (ncols as int) - b / (ncols as int);
    let dc = a % (ncols as int) - b % (ncols as int);
    dr * dr + dc * dc
}

/// The place of the distance between two units in the table of distances.
pub open spec fn pair(size: nat, a: int, b: int) -> int {
    a * size + b
}

/// Whether `table` holds the squared distance between every two units of a
/// grid, row after row.
pub open spec fn is_distance_table(table: Seq<u64>, nrows: nat, ncols: nat) -> bool {
    &&& table.len() == (nrows * ncols) * (nrows * ncols)
    &&& forall|a: int, b: int|
        0 <= a < nrows * ncols && 0 <= b < nrows * ncols ==> #[trigger] table[pair(
            nrows * ncols,
            a,
            b,
        )] == grid_distance_sq(ncols, a, b)
}

/// The units among the first `upto` that lie within a squared distance of
/// `limit` of the unit `center`, in ascending order.
pub open spec fn ball(ncols: nat, upto: int, center: int, limit: int) -> Seq<usize>
    decreases upto,
{
    if upto <= 0 {
        Seq::empty()
    } else {
        let rest = ball(ncols, upto - 1, center, limit);
        if grid_distance_sq(ncols, center, upto - 1) <= limit {
            rest.push((upto - 1) as usize)
        } else {
            rest
        }
    }
}

/// The distance between two units is the same in both directions, and a
/// unit has distance zero to itself.
pub proof fn grid_distance_is_symmetric(ncols: nat, a: int, b: int)
    ensures
        grid_distance_sq(ncols, a, b) == grid_distance_sq(ncols, b, a),
        grid_distance_sq(ncols, a, a) == 0,
        grid_distance_sq(ncols, a, b) >= 0,
{
    let dr = a / (ncols as int) - b / (ncols as int);
    let dc = a % (ncols as int) - b % (ncols as int);
    assert(dr * dr == (-dr) * (-dr)) by (nonlinear_arith);
    assert(dc * dc == (-dc) * (-dc)) by (nonlinear_arith);
    assert(dr * dr >= 0) by (nonlinear_arith);
    assert(dc * dc >= 0) by (nonlinear_arith);
}

/// The unit in row `row` and column `col` is unit `row * ncols + col`.
pub proof fn unit_of_row_col(ncols: nat, row: int, col: int)
    requires
        0 <= row,
        0 <= col < ncols,
    ensures
        (row * ncols + col) / (ncols as int) == row,
        (row * ncols + col) % (ncols as int) == col,
        0 <= row * ncols + col,
{
    assert(ncols as int * row == row * ncols) by (nonlinear_arith);
    assert(0 <= row * ncols) by (nonlinear_arith)
        requires
            0 <= row,
    ;
    lemma_fundamental_div_mod_converse(row * ncols + col, ncols as int, row, col);
}

/// A unit of the grid stands in one of its rows and columns.
pub proof fn row_col_of_unit(nrows: nat, ncols: nat, unit: int)
    requires
        0 <= unit < nrows * ncols,
    ensures
        0 <= unit / (ncols as int) < nrows,
        0 <= unit % (ncols as int) < ncols,
        unit == (unit / (ncols as int)) * ncols + unit % (ncols as int),
{
    assert(ncols > 0) by (nonlinear_arith)
        requires
            0 < nrows * ncols,
    ;
    let w = ncols as int;
    lemma_fundamental_div_mod(unit, w);
    let q = unit / w;
    assert(w * q == q * w) by (nonlinear_arith);
    assert(q >= 0) by (nonlinear_arith)
        requires
            unit == q * w + unit % w,
            0 <= unit % w < w,
            unit >= 0,
    ;
    assert(q < nrows) by (nonlinear_arith)
        requires
            unit == q * w + unit % w,
            0 <= unit % w,
            unit < nrows * w,
            w > 0,
    ;
}

/// The squared distance between two units of a grid is at most the square
/// of the number of its units.
pub proof fn grid_distance_is_bounded(nrows: nat, ncols: nat, a: int, b: int)
    requires
        0 <= a < nrows * ncols,
        0 <= b < nrows * ncols,
    ensures
        0 <= grid_distance_sq(ncols, a, b) <= (nrows * ncols) * (nrows * ncols),
{
    row_col_of_unit(nrows, ncols, a);
    row_col_of_unit(nrows, ncols, b);
    let w = ncols as int;
    let h = nrows as int;
    let dr = a / w - b / w;
    let dc = a % w - b % w;
    assert(dr * dr <= (h - 1) * (h - 1)) by (nonlinear_arith)
        requires
            -(h - 1) <= dr <= h - 1,
    ;
    assert(dc * dc <= (w - 1) * (w - 1)) by (nonlinear_arith)
        requires
            -(w - 1) <= dc <= w - 1,
    ;
    assert((h - 1) * (h - 1) + (w - 1) * (w - 1) <= (h * w) * (h * w)) by (nonlinear_arith)
        requires
            h >= 1,
            w >= 1,
    ;
    assert(dr * dr >= 0) by (nonlinear_arith);
    assert(dc * dc >= 0) by (nonlinear_arith);
    assert(nrows * ncols == h * w);
}

/// Every unit of a ball lies below `upto` and within the limit, the units
/// stand in ascending order, and no unit within the limit is left out.
pub proof fn ball_holds_the_near(ncols: nat, upto: int, center: int, limit: int)
    requires
        upto <= usize::MAX + 1,
    ensures
        ball(ncols, upto, center, limit).len() <= if upto < 0 { 0 } else { upto },
        forall|i: int|
            0 <= i < ball(ncols, upto, center, limit).len() ==> {
                let u = #[trigger] ball(ncols, upto, center, limit)[i];
                0 <= u < upto && grid_distance_sq(ncols, center, u as int) <= limit
            },
        forall|i: int, j: int|
            0 <= i < j < ball(ncols, upto, center, limit).len() ==> (#[trigger] ball(
                ncols,
                upto,
                center,
                limit,
            )[i]) < (#[trigger] ball(ncols, upto, center, limit)[j]),
        forall|u: int|
            0 <= u < upto && #[trigger] grid_distance_sq(ncols, center, u) <= limit ==> ball(
                ncols,
                upto,
                center,
                limit,
            ).contains(u as usize),
    decreases upto,
{
    if upto > 0 {
        ball_holds_the_near(ncols, upto - 1, center, limit);
        let rest = ball(ncols, upto - 1, center, limit);
        let all = ball(ncols, upto, center, limit);
        if grid_distance_sq(ncols, center, upto - 1) <= limit {
            assert(all == rest.push((upto - 1) as usize));
            assert forall|u: int|
                0 <= u < upto && #[trigger] grid_distance_sq(ncols, center, u)
                    <= limit implies all.contains(u as usize) by {
                if u < upto - 1 {
                    assert(rest.contains(u as usize));
                    let i = choose|i: int| 0 <= i < rest.len() && rest[i] == u as usize;
                    assert(all[i] == u as usize);
                } else {
                    assert(all[rest.len() as int] == u as usize);
                }
            }
        } else {
            assert(all == rest);
        }
    }
}

/// Units that are all beyond the limit add nothing to a ball.
pub proof fn ball_skips_the_far(ncols: nat, from: int, upto: int, center: int, limit: int)
    requires
        0 <= from <= upto,
        forall|u: int| from <= u < upto ==> #[trigger] grid_distance_sq(ncols, center, u) > limit,
    ensures
        ball(ncols, upto, center, limit) == ball(ncols, from, center, limit),
    decreases upto - from,
{
    if from < upto {
        ball_skips_the_far(ncols, from, upto - 1, center, limit);
    }
}

/// The rectangle round a ball is sound: a unit whose row or column is more
/// than `reach` away from the center's lies beyond every limit below
/// `(reach + 1)` squared.
pub proof fn far_rows_and_columns_are_outside(
    ncols: nat,
    center: int,
    unit: int,
    reach: int,
    limit: int,
)
    requires
        0 <= reach,
        limit < (reach + 1) * (reach + 1),
        ({
            let dr = center / (ncols as int) - unit / (ncols as int);
            let dc = center % (ncols as int) - unit % (ncols as int);
            dr > reach || dr < -reach || dc > reach || dc < -reach
        }),
    ensures
        grid_distance_sq(ncols, center, unit) > limit,
{
    let dr = center / (ncols as int) - unit / (ncols as int);
    let dc = center % (ncols as int) - unit % (ncols as int);
    assert(dr * dr >= 0) by (nonlinear_arith);
    assert(dc * dc >= 0) by (nonlinear_arith);
    if dr > reach || dr < -reach {
        assert(dr * dr >= (reach + 1) * (reach + 1)) by (nonlinear_arith)
            requires
                dr >= reach + 1 || dr <= -(reach + 1),
                reach >= 0,
        ;
    } else {
        assert(dc * dc >= (reach + 1) * (reach + 1)) by (nonlinear_arith)
            requires
                dc >= reach + 1 || dc <= -(reach + 1),
                reach >= 0,
        ;
    }
}

} // verus!
