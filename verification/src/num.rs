//! Numbers as the library sees them: 64-bit binary numbers, identified by
//! their bit pattern, with the order and the missing-value marker that the
//! binary64 format defines.

use vstd::prelude::*;

verus! {

/// Bit that holds the sign.
pub const SIGN_BIT: u64 = 0x8000_0000_0000_0000;

/// Magnitude of the infinities. Every larger magnitude is a missing value.
pub const INFINITE: u64 = 0x7ff0_0000_0000_0000;

/// Bit pattern of one.
pub const ONE: u64 = 0x3ff0_0000_0000_0000;

/// Bit pattern of one half.
pub const HALF: u64 = 0x3fe0_0000_0000_0000;

/// Bit pattern of three.
pub const THREE: u64 = 0x4008_0000_0000_0000;

/// Bit pattern of the largest finite number.
pub const LARGEST: u64 = 0x7fef_ffff_ffff_ffff;

/// Bit pattern of the missing value that the library writes.
pub const MISSING: u64 = 0x7ff8_0000_0000_0000;

/// A binary64 number, carried as its bit pattern.
///
/// The library never computes with numbers. It compares them, recognizes the
/// missing ones (the format's not-a-number patterns) and passes them on.
/// `==` on this type compares bit patterns; [`Num::same`] compares values.
#[derive(Clone, Copy, Debug, PartialEq, Eq, Structural)]
pub struct Num {
    pub bits: u64,
}

impl Num {
    /// Whether the sign bit is set.
    pub open spec fn negative(self) -> bool {
        self.bits >= SIGN_BIT
    }

    /// The bit pattern without its sign bit.
    pub open spec fn magnitude(self) -> int {
        if self.bits >= SIGN_BIT {
            self.bits - SIGN_BIT
        } else {
            self.bits as int
        }
    }

    /// Whether the number is a missing value.
    pub open spec fn missing(self) -> bool {
        self.magnitude() > INFINITE
    }

    /// The place of a number in the order of all numbers that are not
    /// missing. Both zeros have rank 0; a larger number has a larger rank.
    pub open spec fn rank(self) -> int {
        if self.negative() {
            -self.magnitude()
        } else {
            self.magnitude()
        }
    }

    /// `self < other`: neither is missing, and `self` comes first.
    pub open spec fn below(self, other: Num) -> bool {
        !self.missing() && !other.missing() && self.rank() < other.rank()
    }

    /// `self <= other`: neither is missing, and `other` does not come first.
    pub open spec fn at_most(self, other: Num) -> bool {
        !self.missing() && !other.missing() && self.rank() <= other.rank()
    }

    /// `self == other` as numbers: neither is missing, and they have one rank.
    pub open spec fn same_as(self, other: Num) -> bool {
        !self.missing() && !other.missing() && self.rank() == other.rank()
    }

    /// The number with the given bit pattern.
    pub fn from_bits(bits: u64) -> (r: Num)
        ensures
            r.bits == bits,
    {
        Num { bits }
    }

    /// The bit pattern.
    pub fn to_bits(self) -> (r: u64)
        ensures
            r == self.bits,
    {
        self.bits
    }

    /// Zero.
    pub fn zero() -> (r: Num)
        ensures
            r.bits == 0,
    {
        Num { bits: 0 }
    }

    /// One.
    pub fn one() -> (r: Num)
        ensures
            r.bits == ONE,
    {
        Num { bits: ONE }
    }

    /// One half.
    pub fn half() -> (r: Num)
        ensures
            r.bits == HALF,
    {
        Num { bits: HALF }
    }

    /// Three.
    pub fn three() -> (r: Num)
        ensures
            r.bits == THREE,
    {
        Num { bits: THREE }
    }

    /// The largest finite number.
    pub fn largest() -> (r: Num)
        ensures
            r.bits == LARGEST,
    {
        Num { bits: LARGEST }
    }

    /// The missing value.
    pub fn nan() -> (r: Num)
        ensures
            r.bits == MISSING,
            r.missing(),
    {
        Num { bits: MISSING }
    }

    /// Whether the number is a missing value.
    pub fn is_nan(self) -> (r: bool)
        ensures
            r == self.missing(),
    {
        if self.bits >= SIGN_BIT {
            self.bits - SIGN_BIT > INFINITE
        } else {
            self.bits > INFINITE
        }
    }

    /// The rank of a number, as a machine integer.
    fn key(self) -> (k: i128)
        ensures
            k == self.rank(),
    {
        if self.bits >= SIGN_BIT {
            let m: u64 = self.bits - SIGN_BIT;
            -(m as i128)
        } else {
            self.bits as i128
        }
    }

    /// `self < other`. False where either is missing.
    pub fn lt(self, other: Num) -> (r: bool)
        ensures
            r == self.below(other),
    {
        !self.is_nan() && !other.is_nan() && self.key() < other.key()
    }

    /// `self <= other`. False where either is missing.
    pub fn le(self, other: Num) -> (r: bool)
        ensures
            r == self.at_most(other),
    {
        !self.is_nan() && !other.is_nan() && self.key() <= other.key()
    }

    /// `self > other`. False where either is missing.
    pub fn gt(self, other: Num) -> (r: bool)
        ensures
            r == other.below(self),
    {
        other.lt(self)
    }

    /// `self >= other`. False where either is missing.
    pub fn ge(self, other: Num) -> (r: bool)
        ensures
            r == other.at_most(self),
    {
        other.le(self)
    }

    /// `self == other` as numbers: the two zeros are the same, and a missing
    /// value is the same as nothing.
    pub fn same(self, other: Num) -> (r: bool)
        ensures
            r == self.same_as(other),
    {
        !self.is_nan() && !other.is_nan() && self.key() == other.key()
    }
}

/// Whether no number of the sequence carries data.
pub open spec fn all_missing(s: Seq<Num>) -> bool {
    forall|j: int| 0 <= j < s.len() ==> (#[trigger] s[j]).missing()
}

/// Whether `i` is the first place of `s` that holds a least number, the
/// missing ones left aside.
pub open spec fn first_least(s: Seq<Num>, i: int) -> bool {
    &&& 0 <= i < s.len()
    &&& !s[i].missing()
    &&& forall|j: int| 0 <= j < s.len() && !(#[trigger] s[j]).missing() ==>
        s[i].rank() <= s[j].rank()
    &&& forall|j: int| 0 <= j < i && !(#[trigger] s[j]).missing() ==> s[i].rank() < s[j].rank()
}

/// Whether `i` is the first place of `s` that holds a greatest number, the
/// missing ones left aside.
pub open spec fn first_greatest(s: Seq<Num>, i: int) -> bool {
    &&& 0 <= i < s.len()
    &&& !s[i].missing()
    &&& forall|j: int| 0 <= j < s.len() && !(#[trigger] s[j]).missing() ==>
        s[j].rank() <= s[i].rank()
    &&& forall|j: int| 0 <= j < i && !(#[trigger] s[j]).missing() ==> s[j].rank() < s[i].rank()
}

/// The first place that holds a least number, the missing ones left aside.
/// `None` when every number is missing.
pub fn argmin(s: &[Num]) -> (r: Option<usize>)
    ensures
        r is None <==> all_missing(s@),
        r matches Some(i) ==> first_least(s@, i as int),
{
    let mut best: Option<usize> = None;
    let mut k: usize = 0;
    while k < s.len()
        invariant
            k <= s.len(),
            best is None <==> all_missing(s@.take(k as int)),
            best matches Some(i) ==> first_least(s@.take(k as int), i as int),
        decreases s.len() - k,
    {
        let v = s[k];
        let ghost before = s@.take(k as int);
        let ghost after = s@.take(k + 1);
        assert(forall|j: int| 0 <= j < k ==> after[j] == before[j]);
        assert(after[k as int] == v);
        if !v.is_nan() {
            match best {
                None => {
                    assert(forall|j: int| 0 <= j < k ==> (#[trigger] before[j]).missing());
                    best = Some(k);
                },
                Some(i) => {
                    if v.lt(s[i]) {
                        best = Some(k);
                    }
                },
            }
        } else {
            assert(all_missing(before) ==> all_missing(after));
        }
        k += 1;
    }
    assert(s@.take(s.len() as int) =~= s@);
    best
}

/// The first place that holds a greatest number, the missing ones left
/// aside. `None` when every number is missing.
pub fn argmax(s: &[Num]) -> (r: Option<usize>)
    ensures
        r is None <==> all_missing(s@),
        r matches Some(i) ==> first_greatest(s@, i as int),
{
    let mut best: Option<usize> = None;
    let mut k: usize = 0;
    while k < s.len()
        invariant
            k <= s.len(),
            best is None <==> all_missing(s@.take(k as int)),
            best matches Some(i) ==> first_greatest(s@.take(k as int), i as int),
        decreases s.len() - k,
    {
        let v = s[k];
        let ghost before = s@.take(k as int);
        let ghost after = s@.take(k + 1);
        assert(forall|j: int| 0 <= j < k ==> after[j] == before[j]);
        assert(after[k as int] == v);
        if !v.is_nan() {
            match best {
                None => {
                    assert(forall|j: int| 0 <= j < k ==> (#[trigger] before[j]).missing());
                    best = Some(k);
                },
                Some(i) => {
                    if v.gt(s[i]) {
                        best = Some(k);
                    }
                },
            }
        } else {
            assert(all_missing(before) ==> all_missing(after));
        }
        k += 1;
    }
    assert(s@.take(s.len() as int) =~= s@);
    best
}

/// A sequence has at most one first least place.
pub proof fn first_least_is_unique(s: Seq<Num>, i: int, j: int)
    requires
        first_least(s, i),
        first_least(s, j),
    ensures
        i == j,
{
}

/// A sequence has at most one first greatest place.
pub proof fn first_greatest_is_unique(s: Seq<Num>, i: int, j: int)
    requires
        first_greatest(s, i),
        first_greatest(s, j),
    ensures
        i == j,
{
}

} // verus!
