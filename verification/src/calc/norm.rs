//! Normalization and de-normalization of data.

use crate::num::Num;
use crate::text::same_text;
use crate::{enum_error, enum_message, ParseEnumError};
use std::str::FromStr;
use vstd::prelude::*;

verus! {

/// Normalization types.
#[derive(Debug, Clone, Copy, PartialEq, Eq, Structural)]
pub enum Norm {
    /// Normalize to [0, 1].
    Unit,
    /// Normalize to a mean of 0.5 and standard deviation of 0.5.
    Gauss,
    /// No normalization.
    Plain,
}

impl Norm {
    /// What the message of a failed parse says before the text.
    pub open spec fn error_head() -> Seq<char> {
        "Not a normalizer: "@
    }

    /// What the message of a failed parse says after the text.
    pub open spec fn error_tail() -> Seq<char> {
        ". Must be one of (unit|gauss|none)"@
    }

    /// The name of the normalizer.
    pub open spec fn spec_name(self) -> Seq<char> {
        match self {
            Norm::Unit => "unit"@,
            Norm::Gauss => "gauss"@,
            Norm::Plain => "none"@,
        }
    }

    /// The name of the normalizer, as [`Norm::from_string`] reads it.
    pub fn name(&self) -> (name: &'static str)
        ensures
            name@ == self.spec_name(),
    {
        match self {
            Norm::Unit => "unit",
            Norm::Gauss => "gauss",
            Norm::Plain => "none",
        }
    }

    /// Whether a range leaves nothing to scale to the unit interval: the
    /// column holds no number, or its least number is its greatest. Such a
    /// column is left as it is.
    pub fn is_degenerate(range: (Num, Num)) -> (d: bool)
        ensures
            d == !range.0.below(range.1),
    {
        !range.0.lt(range.1)
    }

    /// Parses a text to a `Norm`.
    ///
    /// Accepts `unit`, `gauss` and `none`.
    pub fn from_string(str: &str) -> (r: Result<Norm, ParseEnumError>)
        ensures
            str@ == "unit"@ ==> r == Ok::<Norm, ParseEnumError>(Norm::Unit),
            str@ == "gauss"@ ==> r == Ok::<Norm, ParseEnumError>(Norm::Gauss),
            str@ == "none"@ ==> r == Ok::<Norm, ParseEnumError>(Norm::Plain),
            r is Ok <==> str@ == "unit"@ || str@ == "gauss"@ || str@ == "none"@,
            r matches Err(e) ==> e.0@ == enum_message(Self::error_head(), str@, Self::error_tail()),
    {
        proof {
            reveal_strlit("unit");
            reveal_strlit("gauss");
            reveal_strlit("none");
            assert("unit"@.len() == 4 && "gauss"@.len() == 5 && "none"@.len() == 4);
            assert("unit"@[0] != "none"@[0]);
        }
        if same_text(str, "unit") {
            Ok(Norm::Unit)
        } else if same_text(str, "gauss") {
            Ok(Norm::Gauss)
        } else if same_text(str, "none") {
            Ok(Norm::Plain)
        } else {
            Err(enum_error("Not a normalizer: ", str, ". Must be one of (unit|gauss|none)"))
        }
    }
}

impl FromStr for Norm {
    type Err = ParseEnumError;

    /// Parses a text to a `Norm`, as [`Norm::from_string`] does.
    fn from_str(str: &str) -> (r: Result<Self, Self::Err>)
        ensures
            str@ == "unit"@ ==> r == Ok::<Norm, ParseEnumError>(Norm::Unit),
            str@ == "gauss"@ ==> r == Ok::<Norm, ParseEnumError>(Norm::Gauss),
            str@ == "none"@ ==> r == Ok::<Norm, ParseEnumError>(Norm::Plain),
            r is Ok <==> str@ == "unit"@ || str@ == "gauss"@ || str@ == "none"@,
            r matches Err(e) ==> e.0@ == enum_message(Norm::error_head(), str@, Norm::error_tail()),
    {
        Norm::from_string(str)
    }
}

/// A linear transform `y = scale * x + offset` of one column, as a
/// normalization or as its inverse.
#[derive(Debug, Clone, Copy, PartialEq, Eq, Structural)]
pub struct LinearTransform {
    pub scale: Num,
    pub offset: Num,
}

impl LinearTransform {
    /// The transform with the given scale and offset.
    pub fn new(scale: Num, offset: Num) -> (t: LinearTransform)
        ensures
            t.scale == scale,
            t.offset == offset,
    {
        LinearTransform { scale, offset }
    }

    /// The transform that changes nothing.
    pub fn identity() -> (t: LinearTransform)
        ensures
            t.scale == (Num { bits: crate::num::ONE }),
            t.offset == (Num { bits: 0 }),
    {
        LinearTransform { scale: Num::one(), offset: Num::zero() }
    }
}

} // verus!
