//! Where a quantile lies among sorted samples.
//!
//! The quantile at level `q` of `n` sorted samples lies at position
//! `q * (n - 1)`, counted from 0. Between two ranks the value is interpolated
//! linearly. This module works out the two ranks and the weight between them
//! for levels given as fractions, so that no rounding enters.

use vstd::prelude::*;
use crate::order::{is_sort_order, lemma_sort_order_extremes};
use crate::sample::{is_nan, key, key_of};

verus! {

/// A level between 0 and 1, as the fraction `num / den`.
#[derive(Debug, Clone, Copy)]
pub struct Level {
    num: u64,
    den: u64,
}

/// The place of a quantile among sorted samples: it lies between the samples of
/// rank `lower` and `upper`, `part / whole` of the way from the first to the
/// second.
#[derive(Debug, Clone, Copy, PartialEq, Eq, Structural)]
pub struct Position {
    pub lower: usize,
    pub upper: usize,
    pub part: u64,
    pub whole: u64,
}

/// The place of the level `num / den` among `len` sorted samples, `len >= 1`
/// and `0 <= num <= den`, `den >= 1`: `lower` is the position rounded down,
/// `upper` the position rounded up, `part / whole` what lies between the
/// position and `lower`.
pub open spec fn position_at(len: int, num: int, den: int) -> Position {
    let scaled = num * (len - 1);
    Position {
        lower: (scaled / den) as usize,
        upper: (if scaled % den == 0 {
            scaled / den
        } else {
            scaled / den + 1
        }) as usize,
        part: (scaled % den) as u64,
        whole: den as u64,
    }
}

/// The place of the median among `len` sorted samples, `len >= 1`: the middle
/// sample of an odd number, halfway between the two middle samples of an even
/// number.
pub open spec fn median_at(len: int) -> Position {
    if len % 2 == 1 {
        Position { lower: (len / 2) as usize, upper: (len / 2) as usize, part: 0, whole: 2 }
    } else {
        Position { lower: (len / 2 - 1) as usize, upper: (len / 2) as usize, part: 1, whole: 2 }
    }
}

impl Level {
    #[verifier::type_invariant]
    spec fn well_formed(&self) -> bool {
        1 <= self.den && self.num <= self.den
    }

    /// Numerator of the level, at most the denominator.
    pub closed spec fn num(&self) -> int {
        self.num as int
    }

    /// Denominator of the level, at least 1.
    pub closed spec fn den(&self) -> int {
        self.den as int
    }

    /// The level `num / den`. A level above 1 counts as 1. There is no level
    /// with denominator 0.
    pub fn new(num: u64, den: u64) -> (out: Option<Level>)
        ensures
            out.is_some() <==> den >= 1,
            out.is_some() ==> {
                let level = out.unwrap();
                &&& level.den() == den
                &&& level.num() == if num <= den {
                    num
                } else {
                    den
                }
            },
    {
        if den == 0 {
            None
        } else if num <= den {
            Some(Level { num, den })
        } else {
            Some(Level { num: den, den })
        }
    }

    /// Level 0: the minimum.
    pub fn lowest() -> (level: Level)
        ensures
            level.num() == 0,
            level.den() == 1,
    {
        Level { num: 0, den: 1 }
    }

    /// Level 1: the maximum.
    pub fn highest() -> (level: Level)
        ensures
            level.num() == 1,
            level.den() == 1,
    {
        Level { num: 1, den: 1 }
    }

    /// Level 1/2: the median.
    pub fn median() -> (level: Level)
        ensures
            level.num() == 1,
            level.den() == 2,
    {
        Level { num: 1, den: 2 }
    }

    /// Level 1/4: the first quartile.
    pub fn lower_quartile() -> (level: Level)
        ensures
            level.num() == 1,
            level.den() == 4,
    {
        Level { num: 1, den: 4 }
    }

    /// Level 3/4: the third quartile.
    pub fn upper_quartile() -> (level: Level)
        ensures
            level.num() == 3,
            level.den() == 4,
    {
        Level { num: 3, den: 4 }
    }

    /// The place of the quantile at this level among `len` sorted samples.
    /// Without samples there is no quantile.
    pub fn position(&self, len: usize) -> (out: Option<Position>)
        ensures
            len == 0 ==> out.is_none(),
            len >= 1 ==> out == Some(position_at(len as int, self.num(), self.den())),
            len >= 1 ==> {
                let p = out.unwrap();
                &&& p.lower <= p.upper < len
                &&& p.upper <= p.lower + 1
                &&& p.part < p.whole
                &&& (p.lower == p.upper <==> p.part == 0)
            },
    {
        if len == 0 {
            return None;
        }
        proof {
            use_type_invariant(self);
        }
        let num = self.num as u128;
        let den = self.den as u128;
        let last = (len - 1) as u128;
        proof {
            lemma_position_bounds(len as int, self.num as int, self.den as int);
        }
        assert(num * last <= 0xffff_ffff_ffff_ffff * 0xffff_ffff_ffff_ffff) by (nonlinear_arith)
            requires
                0 <= num <= 0xffff_ffff_ffff_ffff,
                0 <= last <= 0xffff_ffff_ffff_ffff,
        ;
        let scaled = num * last;
        let lower = (scaled / den) as usize;
        let part = (scaled % den) as u64;
        let upper = if part == 0 {
            lower
        } else {
            lower + 1
        };
        Some(Position { lower, upper, part, whole: self.den })
    }
}

/// The key of the number 1.
pub const ONE_KEY: i64 = 0x3ff0_0000_0000_0000;

/// Where a level that is given as a sample lies with respect to the levels
/// from 0 to 1.
#[derive(Debug, Clone, Copy, PartialEq, Eq, Structural)]
pub enum Reach {
    /// At 0 or below: the quantile is the minimum.
    Lowest,
    /// At 1 or above: the quantile is the maximum.
    Highest,
    /// Strictly between 0 and 1, or not a number.
    Between,
}

/// Tells whether a level given as a sample calls for the minimum, for the
/// maximum, or lies between the two.
pub fn reach(level: u64) -> (out: Reach)
    ensures
        out == Reach::Lowest <==> !is_nan(level) && key_of(level) <= 0,
        out == Reach::Highest <==> !is_nan(level) && key_of(level) >= ONE_KEY,
        out == Reach::Between <==> is_nan(level) || 0 < key_of(level) < ONE_KEY,
{
    match key(level) {
        None => Reach::Between,
        Some(k) => {
            if k <= 0 {
                Reach::Lowest
            } else if k >= ONE_KEY {
                Reach::Highest
            } else {
                Reach::Between
            }
        },
    }
}

/// The position of a level lies among the ranks, and its two ranks are at most
/// one apart.
pub proof fn lemma_position_bounds(len: int, num: int, den: int)
    requires
        len >= 1,
        0 <= num <= den,
        den >= 1,
    ensures
        0 <= num * (len - 1),
        0 <= (num * (len - 1)) / den <= len - 1,
        0 <= (num * (len - 1)) % den < den,
        (num * (len - 1)) % den != 0 ==> (num * (len - 1)) / den < len - 1,
{
    let scaled = num * (len - 1);
    assert(0 <= scaled <= den * (len - 1)) by (nonlinear_arith)
        requires
            scaled == num * (len - 1),
            0 <= num <= den,
            len >= 1,
    ;
    let q = scaled / den;
    let r = scaled % den;
    assert(scaled == q * den + r && 0 <= r < den) by (nonlinear_arith)
        requires
            q == scaled / den,
            r == scaled % den,
            den >= 1,
    ;
    assert(q >= 0 && q <= len - 1 && (r != 0 ==> q < len - 1)) by (nonlinear_arith)
        requires
            scaled == q * den + r,
            0 <= r < den,
            0 <= scaled <= den * (len - 1),
            den >= 1,
    ;
}

/// A higher level never lies at a lower place: both ranks of the position rise
/// with the level, or stay.
pub proof fn lemma_position_rises(len: int, num: int, den: int, above_num: int, above_den: int)
    requires
        1 <= len <= usize::MAX,
        0 <= num <= den,
        1 <= den,
        0 <= above_num <= above_den,
        1 <= above_den,
        num * above_den <= above_num * den,
    ensures
        position_at(len, num, den).lower <= position_at(len, above_num, above_den).lower,
        position_at(len, num, den).upper <= position_at(len, above_num, above_den).upper,
{
    lemma_position_bounds(len, num, den);
    lemma_position_bounds(len, above_num, above_den);
    let x = num * (len - 1);
    let y = above_num * (len - 1);
    let xq = x / den;
    let xr = x % den;
    let yq = y / above_den;
    let yr = y % above_den;
    assert(x == xq * den + xr) by (nonlinear_arith)
        requires
            xq == x / den,
            xr == x % den,
            den >= 1,
    ;
    assert(y == yq * above_den + yr) by (nonlinear_arith)
        requires
            yq == y / above_den,
            yr == y % above_den,
            above_den >= 1,
    ;
    assert(x * above_den <= y * den) by (nonlinear_arith)
        requires
            x == num * (len - 1),
            y == above_num * (len - 1),
            num * above_den <= above_num * den,
            len >= 1,
    ;
    assert(xq <= yq) by (nonlinear_arith)
        requires
            x == xq * den + xr,
            y == yq * above_den + yr,
            0 <= xr < den,
            0 <= yr < above_den,
            x * above_den <= y * den,
            xq >= 0,
            yq >= 0,
    ;
    if xr != 0 && yr == 0 {
        assert(xq < yq) by (nonlinear_arith)
            requires
                x == xq * den + xr,
                y == yq * above_den + yr,
                0 < xr < den,
                yr == 0,
                0 < above_den,
                x * above_den <= y * den,
                xq >= 0,
                yq >= 0,
        ;
    }
}

/// The place of the median among `len` sorted samples. Without samples there
/// is no median.
pub fn median_position(len: usize) -> (out: Option<Position>)
    ensures
        len == 0 ==> out.is_none(),
        len >= 1 ==> out == Some(median_at(len as int)),
{
    if len == 0 {
        None
    } else if len % 2 == 1 {
        Some(Position { lower: len / 2, upper: len / 2, part: 0, whole: 2 })
    } else {
        Some(Position { lower: len / 2 - 1, upper: len / 2, part: 1, whole: 2 })
    }
}

/// The quantile at level 1/2 is the median, for an odd and for an even number
/// of samples.
pub proof fn lemma_half_is_median(len: int)
    requires
        1 <= len <= usize::MAX,
    ensures
        position_at(len, 1, 2) == median_at(len),
{
    assert(1 * (len - 1) == len - 1) by (nonlinear_arith);
}

/// The quantile at level 0 is the minimum and the quantile at level 1 the
/// maximum: each lies exactly on one sample of a sort order, and no sample has
/// a smaller, respectively larger, key.
pub proof fn lemma_ends_are_extremes(keys: Seq<i64>, order: Seq<usize>, den: int, i: int)
    requires
        is_sort_order(keys, order),
        1 <= keys.len() <= usize::MAX,
        1 <= den <= u64::MAX,
        0 <= i < keys.len(),
    ensures
        ({
            let p = position_at(keys.len() as int, 0, den);
            p.lower == 0 && p.upper == 0 && p.part == 0 && keys[order[p.lower as int] as int] <= keys[i]
        }),
        ({
            let p = position_at(keys.len() as int, den, den);
            p.lower == keys.len() - 1 && p.upper == keys.len() - 1 && p.part == 0 && keys[i]
                <= keys[order[p.upper as int] as int]
        }),
{
    let len = keys.len() as int;
    lemma_sort_order_extremes(keys, order, i);
    assert(0 * (len - 1) == 0) by (nonlinear_arith);
    assert(0int / den == 0 && 0int % den == 0) by (nonlinear_arith)
        requires
            den >= 1,
    ;
    let scaled = den * (len - 1);
    assert(scaled / den == len - 1 && scaled % den == 0) by (nonlinear_arith)
        requires
            scaled == den * (len - 1),
            den >= 1,
            len >= 1,
    ;
}

} // verus!
