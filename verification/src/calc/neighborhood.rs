//! Neighborhoods (kernels), for the effect on nearby units of a map.

use crate::num::{Num, ONE, THREE};
use crate::text::same_text;
use crate::{enum_error, enum_message, ParseEnumError};
use std::str::FromStr;
use vstd::prelude::*;

verus! {

/// Neighborhoods: 4 or 8 neighbors.
#[derive(Debug, Clone, Copy, PartialEq, Eq, Structural)]
pub enum Neighbors {
    Neighbors4,
    Neighbors8,
}

/// Whether a text names four neighbors.
pub open spec fn names_four(s: Seq<char>) -> bool {
    s == "4"@ || s == "n4"@ || s == "N4"@ || s == "Neighbors4"@
}

/// Whether a text names eight neighbors.
pub open spec fn names_eight(s: Seq<char>) -> bool {
    s == "8"@ || s == "n8"@ || s == "N8"@ || s == "Neighbors8"@
}

impl Neighbors {
    /// What the message of a failed parse says before the text.
    pub open spec fn error_head() -> Seq<char> {
        "Not a Neighbors: "@
    }

    /// What the message of a failed parse says after the text.
    pub open spec fn error_tail() -> Seq<char> {
        ". Must be one of (n4|n8)"@
    }

    /// Parses a text to a `Neighbors`.
    ///
    /// Accepts `4`, `n4`, `N4`, `Neighbors4`, `8`, `n8`, `N8` and
    /// `Neighbors8`.
    pub fn from_string(str: &str) -> (r: Result<Neighbors, ParseEnumError>)
        ensures
            names_four(str@) ==> r == Ok::<Neighbors, ParseEnumError>(Neighbors::Neighbors4),
            names_eight(str@) ==> r == Ok::<Neighbors, ParseEnumError>(Neighbors::Neighbors8),
            r is Ok <==> names_four(str@) || names_eight(str@),
            r matches Err(e) ==> e.0@ == enum_message(Self::error_head(), str@, Self::error_tail()),
    {
        proof {
            reveal_strlit("4");
            reveal_strlit("n4");
            reveal_strlit("N4");
            reveal_strlit("Neighbors4");
            reveal_strlit("8");
            reveal_strlit("n8");
            reveal_strlit("N8");
            reveal_strlit("Neighbors8");
            assert("4"@[0] != "8"@[0]);
            assert("n4"@[1] != "n8"@[1] && "n4"@[1] != "N8"@[1]);
            assert("N4"@[1] != "n8"@[1] && "N4"@[1] != "N8"@[1]);
            assert("Neighbors4"@[9] != "Neighbors8"@[9]);
            assert("4"@.len() == 1 && "n4"@.len() == 2 && "N4"@.len() == 2 && "Neighbors4"@.len()
                == 10);
            assert("8"@.len() == 1 && "n8"@.len() == 2 && "N8"@.len() == 2 && "Neighbors8"@.len()
                == 10);
        }
        if same_text(str, "4") || same_text(str, "n4") || same_text(str, "N4") || same_text(
            str,
            "Neighbors4",
        ) {
            Ok(Neighbors::Neighbors4)
        } else if same_text(str, "8") || same_text(str, "n8") || same_text(str, "N8") || same_text(
            str,
            "Neighbors8",
        ) {
            Ok(Neighbors::Neighbors8)
        } else {
            Err(enum_error("Not a Neighbors: ", str, ". Must be one of (n4|n8)"))
        }
    }
}

impl FromStr for Neighbors {
    type Err = ParseEnumError;

    /// Parses a text to a `Neighbors`, as [`Neighbors::from_string`] does.
    fn from_str(str: &str) -> (r: Result<Self, Self::Err>)
        ensures
            names_four(str@) ==> r == Ok::<Neighbors, ParseEnumError>(Neighbors::Neighbors4),
            names_eight(str@) ==> r == Ok::<Neighbors, ParseEnumError>(Neighbors::Neighbors8),
            r is Ok <==> names_four(str@) || names_eight(str@),
            r matches Err(e) ==> e.0@ == enum_message(
                Neighbors::error_head(),
                str@,
                Neighbors::error_tail(),
            ),
    {
        Neighbors::from_string(str)
    }
}

/// Neighborhood functions (kernels).
#[derive(Debug, Clone, Copy, PartialEq, Eq, Structural)]
pub enum Neighborhood {
    Gauss,
    Triangular,
    Epanechnikov,
    Quartic,
    Triweight,
}

impl Neighborhood {
    /// Whether the kernel is zero from distance one on.
    pub open spec fn compact(self) -> bool {
        self != Neighborhood::Gauss
    }

    /// The weight at the distances where the kernel's formula is not needed:
    /// a compact kernel is zero from distance one on, and the Gaussian is one
    /// at distance zero. Nothing elsewhere.
    pub open spec fn spec_edge_weight(self, distance: Num) -> Option<Num> {
        if self.compact() {
            if (Num { bits: ONE }).at_most(distance) {
                Some(Num { bits: 0 })
            } else {
                None
            }
        } else {
            if distance.same_as(Num { bits: 0 }) {
                Some(Num { bits: ONE })
            } else {
                None
            }
        }
    }

    /// The weight at the distances where the kernel's formula is not needed:
    /// zero for a compact kernel from distance one on, one for the Gaussian
    /// at distance zero. `None` where the formula decides.
    pub fn edge_weight(&self, distance: Num) -> (w: Option<Num>)
        ensures
            w == self.spec_edge_weight(distance),
    {
        match self {
            Neighborhood::Gauss => {
                if distance.same(Num::zero()) {
                    Some(Num::one())
                } else {
                    None
                }
            },
            _ => {
                if distance.ge(Num::one()) {
                    Some(Num::zero())
                } else {
                    None
                }
            },
        }
    }

    /// Maximum search distance in the map, in units of the current radius:
    /// three for the Gaussian, one for the compact kernels.
    pub fn radius(&self) -> (r: Num)
        ensures
            r.bits == if self.compact() { ONE } else { THREE },
    {
        match self {
            Neighborhood::Gauss => Num::three(),
            _ => Num::one(),
        }
    }

    /// What the message of a failed parse says before the text.
    pub open spec fn error_head() -> Seq<char> {
        "Not a neighborhood: "@
    }

    /// What the message of a failed parse says after the text.
    pub open spec fn error_tail() -> Seq<char> {
        ". Must be one of (gauss|triangular|epanechnikov|quartic|triweight)"@
    }

    /// Parses a text to a `Neighborhood`.
    ///
    /// Accepts `gauss`, `triangular`, `epanechnikov`, `quartic` and
    /// `triweight`.
    pub fn from_string(str: &str) -> (r: Result<Neighborhood, ParseEnumError>)
        ensures
            str@ == "gauss"@ ==> r == Ok::<Neighborhood, ParseEnumError>(Neighborhood::Gauss),
            str@ == "triangular"@ ==> r == Ok::<Neighborhood, ParseEnumError>(
                Neighborhood::Triangular,
            ),
            str@ == "epanechnikov"@ ==> r == Ok::<Neighborhood, ParseEnumError>(
                Neighborhood::Epanechnikov,
            ),
            str@ == "quartic"@ ==> r == Ok::<Neighborhood, ParseEnumError>(Neighborhood::Quartic),
            str@ == "triweight"@ ==> r == Ok::<Neighborhood, ParseEnumError>(
                Neighborhood::Triweight,
            ),
            r is Ok <==> str@ == "gauss"@ || str@ == "triangular"@ || str@ == "epanechnikov"@
                || str@ == "quartic"@ || str@ == "triweight"@,
            r matches Err(e) ==> e.0@ == enum_message(Self::error_head(), str@, Self::error_tail()),
    {
        proof {
            reveal_strlit("gauss");
            reveal_strlit("triangular");
            reveal_strlit("epanechnikov");
            reveal_strlit("quartic");
            reveal_strlit("triweight");
            assert("gauss"@.len() == 5 && "triangular"@.len() == 10 && "epanechnikov"@.len() == 12
                && "quartic"@.len() == 7 && "triweight"@.len() == 9);
        }
        if same_text(str, "gauss") {
            Ok(Neighborhood::Gauss)
        } else if same_text(str, "triangular") {
            Ok(Neighborhood::Triangular)
        } else if same_text(str, "epanechnikov") {
            Ok(Neighborhood::Epanechnikov)
        } else if same_text(str, "quartic") {
            Ok(Neighborhood::Quartic)
        } else if same_text(str, "triweight") {
            Ok(Neighborhood::Triweight)
        } else {
            Err(
                enum_error(
                    "Not a neighborhood: ",
                    str,
                    ". Must be one of (gauss|triangular|epanechnikov|quartic|triweight)",
                ),
            )
        }
    }
}

impl FromStr for Neighborhood {
    type Err = ParseEnumError;

    /// Parses a text to a `Neighborhood`, as [`Neighborhood::from_string`]
    /// does.
    fn from_str(str: &str) -> (r: Result<Self, Self::Err>)
        ensures
            str@ == "gauss"@ ==> r == Ok::<Neighborhood, ParseEnumError>(Neighborhood::Gauss),
            str@ == "triangular"@ ==> r == Ok::<Neighborhood, ParseEnumError>(
                Neighborhood::Triangular,
            ),
            str@ == "epanechnikov"@ ==> r == Ok::<Neighborhood, ParseEnumError>(
                Neighborhood::Epanechnikov,
            ),
            str@ == "quartic"@ ==> r == Ok::<Neighborhood, ParseEnumError>(Neighborhood::Quartic),
            str@ == "triweight"@ ==> r == Ok::<Neighborhood, ParseEnumError>(
                Neighborhood::Triweight,
            ),
            r is Ok <==> str@ == "gauss"@ || str@ == "triangular"@ || str@ == "epanechnikov"@
                || str@ == "quartic"@ || str@ == "triweight"@,
            r matches Err(e) ==> e.0@ == enum_message(
                Neighborhood::error_head(),
                str@,
                Neighborhood::error_tail(),
            ),
    {
        Neighborhood::from_string(str)
    }
}

/// Every compact kernel is zero from distance one on, and the Gaussian is
/// one at distance zero.
pub proof fn kernels_at_their_edges(kernel: Neighborhood, distance: Num)
    ensures
        kernel.compact() && (Num { bits: ONE }).at_most(distance) ==> kernel.spec_edge_weight(
            distance,
        ) == Some(Num { bits: 0 }),
        kernel == Neighborhood::Gauss && distance.bits == 0 ==> kernel.spec_edge_weight(distance)
            == Some(Num { bits: ONE }),
{
}

} // verus!
