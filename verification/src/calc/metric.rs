//! Distance metrics.

use crate::num::{all_missing, Num, HALF};
use crate::text::same_text;
use crate::{enum_error, enum_message, ParseEnumError};
use std::str::FromStr;
use vstd::prelude::*;

verus! {

/// Distance metrics.
#[derive(Debug, Clone, Copy, PartialEq, Eq, Structural)]
pub enum Metric {
    SqEuclidean,
    Euclidean,
    Tanimoto,
}

/// Whether a dimension takes part in a distance: both numbers carry data.
pub open spec fn compared(a: Num, b: Num) -> bool {
    !a.missing() && !b.missing()
}

/// Whether a number counts as set: it is at least one half.
pub open spec fn is_set(a: Num) -> bool {
    (Num { bits: HALF }).at_most(a)
}

/// Whether a dimension takes part in a distance and one number is set where
/// the other is not.
pub open spec fn disagree(a: Num, b: Num) -> bool {
    compared(a, b) && is_set(a) != is_set(b)
}

/// The number of dimensions that take part in a distance.
pub open spec fn count_compared(a: Seq<Num>, b: Seq<Num>) -> nat
    decreases a.len(),
{
    if a.len() == 0 || b.len() == 0 {
        0
    } else {
        count_compared(a.drop_last(), b.drop_last()) + if compared(a.last(), b.last()) {
            1nat
        } else {
            0nat
        }
    }
}

/// The number of dimensions in which two vectors disagree.
pub open spec fn count_disagree(a: Seq<Num>, b: Seq<Num>) -> nat
    decreases a.len(),
{
    if a.len() == 0 || b.len() == 0 {
        0
    } else {
        count_disagree(a.drop_last(), b.drop_last()) + if disagree(a.last(), b.last()) {
            1nat
        } else {
            0nat
        }
    }
}

/// A dimension with a missing value on either side changes neither count.
pub proof fn missing_dimension_is_skipped(a: Seq<Num>, b: Seq<Num>, x: Num, y: Num)
    requires
        a.len() == b.len(),
        x.missing() || y.missing(),
    ensures
        count_compared(a.push(x), b.push(y)) == count_compared(a, b),
        count_disagree(a.push(x), b.push(y)) == count_disagree(a, b),
{
    assert(a.push(x).drop_last() =~= a);
    assert(b.push(y).drop_last() =~= b);
}

/// A vector without any number takes part in no distance: against it no
/// dimension is compared.
pub proof fn missing_vector_compares_nothing(a: Seq<Num>, b: Seq<Num>)
    requires
        a.len() == b.len(),
        all_missing(a) || all_missing(b),
    ensures
        count_compared(a, b) == 0,
        count_disagree(a, b) == 0,
    decreases a.len(),
{
    if a.len() > 0 {
        assert(a.last() == a[a.len() - 1]);
        assert(b.last() == b[b.len() - 1]);
        assert(all_missing(a) ==> all_missing(a.drop_last())) by {
            if all_missing(a) {
                assert forall|j: int| 0 <= j < a.drop_last().len() implies
                    (#[trigger] a.drop_last()[j]).missing() by {
                    assert(a.drop_last()[j] == a[j]);
                }
            }
        }
        assert(all_missing(b) ==> all_missing(b.drop_last())) by {
            if all_missing(b) {
                assert forall|j: int| 0 <= j < b.drop_last().len() implies
                    (#[trigger] b.drop_last()[j]).missing() by {
                    assert(b.drop_last()[j] == b[j]);
                }
            }
        }
        missing_vector_compares_nothing(a.drop_last(), b.drop_last());
    }
}

impl Metric {
    /// What the message of a failed parse says before the text.
    pub open spec fn error_head() -> Seq<char> {
        "Not a metric: "@
    }

    /// What the message of a failed parse says after the text.
    pub open spec fn error_tail() -> Seq<char> {
        ". Must be one of (euclidean|tanimoto)"@
    }

    /// Parses a text to a `Metric`.
    ///
    /// Accepts `euclidean` and `tanimoto`.
    pub fn from_string(str: &str) -> (r: Result<Metric, ParseEnumError>)
        ensures
            str@ == "euclidean"@ ==> r == Ok::<Metric, ParseEnumError>(Metric::Euclidean),
            str@ == "tanimoto"@ ==> r == Ok::<Metric, ParseEnumError>(Metric::Tanimoto),
            r is Ok <==> str@ == "euclidean"@ || str@ == "tanimoto"@,
            r matches Err(e) ==> e.0@ == enum_message(Self::error_head(), str@, Self::error_tail()),
    {
        proof {
            reveal_strlit("euclidean");
            reveal_strlit("tanimoto");
            assert("euclidean"@.len() != "tanimoto"@.len());
        }
        if same_text(str, "euclidean") {
            Ok(Metric::Euclidean)
        } else if same_text(str, "tanimoto") {
            Ok(Metric::Tanimoto)
        } else {
            Err(enum_error("Not a metric: ", str, ". Must be one of (euclidean|tanimoto)"))
        }
    }

    /// The two counts of the Tanimoto distance: in how many dimensions the
    /// vectors disagree, and how many dimensions take part. The distance is
    /// the first divided by the second.
    pub fn tanimoto_counts(from: &[Num], to: &[Num]) -> (counts: (usize, usize))
        requires
            from.len() == to.len(),
        ensures
            counts.0 == count_disagree(from@, to@),
            counts.1 == count_compared(from@, to@),
            counts.0 <= counts.1 <= from.len(),
    {
        let mut differ: usize = 0;
        let mut counter: usize = 0;
        let mut i: usize = 0;
        while i < from.len()
            invariant
                i <= from.len(),
                from.len() == to.len(),
                differ == count_disagree(from@.take(i as int), to@.take(i as int)),
                counter == count_compared(from@.take(i as int), to@.take(i as int)),
                differ <= counter <= i,
            decreases from.len() - i,
        {
            let a = from[i];
            let b = to[i];
            proof {
                assert(from@.take(i + 1).drop_last() =~= from@.take(i as int));
                assert(to@.take(i + 1).drop_last() =~= to@.take(i as int));
            }
            if !a.is_nan() && !b.is_nan() {
                counter += 1;
                if a.ge(Num::half()) != b.ge(Num::half()) {
                    differ += 1;
                }
            }
            i += 1;
        }
        proof {
            assert(from@.take(from.len() as int) =~= from@);
            assert(to@.take(to.len() as int) =~= to@);
        }
        (differ, counter)
    }
}

impl FromStr for Metric {
    type Err = ParseEnumError;

    /// Parses a text to a `Metric`, as [`Metric::from_string`] does.
    fn from_str(str: &str) -> (r: Result<Self, Self::Err>)
        ensures
            str@ == "euclidean"@ ==> r == Ok::<Metric, ParseEnumError>(Metric::Euclidean),
            str@ == "tanimoto"@ ==> r == Ok::<Metric, ParseEnumError>(Metric::Tanimoto),
            r is Ok <==> str@ == "euclidean"@ || str@ == "tanimoto"@,
            r matches Err(e) ==> e.0@ == enum_message(
                Metric::error_head(),
                str@,
                Metric::error_tail(),
            ),
    {
        Metric::from_string(str)
    }
}

} // verus!
