use vstd::prelude::*;

verus! {

/// Smallest value of the numeric domain.
pub const DOMAIN_MIN: i64 = -9223372036854775808;

/// Largest value of the numeric domain.
pub const DOMAIN_MAX: i64 = 9223372036854775807;

/// The abstract state of a range: not yet computed, an interval, or no value.
#[derive(Clone, Copy, Debug, PartialEq, Eq, Structural)]
pub enum RangeType {
    Unknown,
    Regular,
    Empty,
}

/// A closed interval `[lower, upper]` of the domain together with its state.
#[derive(Clone, Copy, Debug, PartialEq, Eq, Structural)]
pub struct Range {
    pub rtype: RangeType,
    pub lower: i64,
    pub upper: i64,
}

/// Clamps a mathematical integer into the domain (saturation).
pub open spec fn clamp(x: int) -> int {
    if x < DOMAIN_MIN as int {
        DOMAIN_MIN as int
    } else if x > DOMAIN_MAX as int {
        DOMAIN_MAX as int
    } else {
        x
    }
}

pub open spec fn spec_full() -> Range {
    Range { rtype: RangeType::Regular, lower: DOMAIN_MIN, upper: DOMAIN_MAX }
}

/// The canonical empty range.
pub open spec fn spec_empty() -> Range {
    Range { rtype: RangeType::Empty, lower: DOMAIN_MAX, upper: DOMAIN_MIN }
}

pub open spec fn regular(lo: int, hi: int) -> Range
    recommends DOMAIN_MIN <= lo <= DOMAIN_MAX, DOMAIN_MIN <= hi <= DOMAIN_MAX,
{
    Range { rtype: RangeType::Regular, lower: lo as i64, upper: hi as i64 }
}

pub open spec fn min2(a: int, b: int) -> int {
    if a <= b { a } else { b }
}

pub open spec fn max2(a: int, b: int) -> int {
    if a >= b { a } else { b }
}

pub open spec fn min4(a: int, b: int, c: int, d: int) -> int {
    min2(min2(a, b), min2(c, d))
}

pub open spec fn max4(a: int, b: int, c: int, d: int) -> int {
    max2(max2(a, b), max2(c, d))
}

pub open spec fn abs(a: int) -> int {
    if a < 0 { -a } else { a }
}

/// Division rounding toward zero, as the machine performs it.
pub open spec fn trunc_div(a: int, b: int) -> int {
    if (a < 0) == (b < 0) {
        abs(a) / abs(b)
    } else {
        -(abs(a) / abs(b))
    }
}

/// Remainder whose sign follows the dividend, as the machine computes it.
pub open spec fn trunc_rem(a: int, b: int) -> int {
    a - b * trunc_div(a, b)
}

impl Range {
    /// A range that holds a value of the domain: regular ranges are ordered.
    pub open spec fn wf(self) -> bool {
        self.rtype == RangeType::Regular ==> self.lower <= self.upper
    }

    /// Whether `x` is one of the values that the range stands for
    /// (`Unknown` stands for no value yet).
    pub open spec fn contains(self, x: int) -> bool {
        self.rtype == RangeType::Regular && self.lower <= x && x <= self.upper
    }

    /// Builds a range from its bounds and state.
    pub fn new(lb: i64, ub: i64, rtype: RangeType) -> (r: Range)
        ensures
            r.lower == lb,
            r.upper == ub,
            r.rtype == rtype,
    {
        Range { rtype, lower: lb, upper: ub }
    }

    /// The full range `[DOMAIN_MIN, DOMAIN_MAX]`; the argument only names the domain.
    pub fn default(_default: i64) -> (r: Range)
        ensures
            r == spec_full(),
    {
        Range { rtype: RangeType::Regular, lower: DOMAIN_MIN, upper: DOMAIN_MAX }
    }

    pub fn full() -> (r: Range)
        ensures
            r == spec_full(),
    {
        Range { rtype: RangeType::Regular, lower: DOMAIN_MIN, upper: DOMAIN_MAX }
    }

    pub fn empty() -> (r: Range)
        ensures
            r == spec_empty(),
    {
        Range { rtype: RangeType::Empty, lower: DOMAIN_MAX, upper: DOMAIN_MIN }
    }

    pub fn unknown() -> (r: Range)
        ensures
            r.rtype == RangeType::Unknown,
    {
        Range { rtype: RangeType::Unknown, lower: DOMAIN_MIN, upper: DOMAIN_MAX }
    }

    /// The single value `[c, c]`.
    pub fn constant(c: i64) -> (r: Range)
        ensures
            r == regular(c as int, c as int),
    {
        Range { rtype: RangeType::Regular, lower: c, upper: c }
    }

    pub fn get_lower(&self) -> (r: i64)
        ensures
            r == self.lower,
    {
        self.lower
    }

    pub fn get_upper(&self) -> (r: i64)
        ensures
            r == self.upper,
    {
        self.upper
    }

    pub fn set_lower(&mut self, newl: i64)
        ensures
            *final(self) == (Range { lower: newl, ..*old(self) }),
    {
        self.lower = newl;
    }

    pub fn set_upper(&mut self, newu: i64)
        ensures
            *final(self) == (Range { upper: newu, ..*old(self) }),
    {
        self.upper = newu;
    }

    pub fn is_unknown(&self) -> (r: bool)
        ensures
            r == (self.rtype == RangeType::Unknown),
    {
        matches!(self.rtype, RangeType::Unknown)
    }

    pub fn set_unknown(&mut self)
        ensures
            *final(self) == (Range { rtype: RangeType::Unknown, ..*old(self) }),
    {
        self.rtype = RangeType::Unknown;
    }

    pub fn is_regular(&self) -> (r: bool)
        ensures
            r == (self.rtype == RangeType::Regular),
    {
        matches!(self.rtype, RangeType::Regular)
    }

    pub fn set_regular(&mut self)
        ensures
            *final(self) == (Range { rtype: RangeType::Regular, ..*old(self) }),
    {
        self.rtype = RangeType::Regular;
    }

    pub fn is_empty(&self) -> (r: bool)
        ensures
            r == (self.rtype == RangeType::Empty),
    {
        matches!(self.rtype, RangeType::Empty)
    }

    pub fn set_empty(&mut self)
        ensures
            *final(self) == (Range { rtype: RangeType::Empty, ..*old(self) }),
    {
        self.rtype = RangeType::Empty;
    }
}


/// Arithmetic opcodes of binary operations.
#[derive(Clone, Copy, Debug, PartialEq, Eq, Structural)]
pub enum ArithOp {
    Add,
    Sub,
    Mul,
    Div,
    Rem,
}

/// Opcodes of unary operations.
#[derive(Clone, Copy, Debug, PartialEq, Eq, Structural)]
pub enum UnaryKind {
    Neg,
    Not,
}

/// The exact result of one endpoint combination.
pub open spec fn apply_arith(op: ArithOp, a: int, b: int) -> int {
    match op {
        ArithOp::Add => a + b,
        ArithOp::Sub => a - b,
        ArithOp::Mul => a * b,
        ArithOp::Div => trunc_div(a, b),
        ArithOp::Rem => trunc_rem(a, b),
    }
}

/// A range read with `Unknown` taken as the full domain.
pub open spec fn forced(r: Range) -> Range {
    if r.rtype == RangeType::Unknown {
        spec_full()
    } else {
        r
    }
}

/// Whether a division or remainder has a divisor range that may hold zero:
/// its two bounds are not both of one strict sign.
pub open spec fn divisor_may_be_zero(op: ArithOp, d: Range) -> bool {
    (op == ArithOp::Div || op == ArithOp::Rem) && !((d.lower > 0 && d.upper > 0) || (d.lower < 0
        && d.upper < 0))
}

/// Interval arithmetic of a binary operation: the four endpoint combinations,
/// their minimum and maximum, clamped to the domain.
pub open spec fn spec_binary(op: ArithOp, r1: Range, r2: Range) -> Range {
    let a = forced(r1);
    let b = forced(r2);
    if a.rtype == RangeType::Empty || b.rtype == RangeType::Empty {
        spec_empty()
    } else if divisor_may_be_zero(op, b) {
        spec_full()
    } else {
        let ll = apply_arith(op, a.lower as int, b.lower as int);
        let lu = apply_arith(op, a.lower as int, b.upper as int);
        let ul = apply_arith(op, a.upper as int, b.lower as int);
        let uu = apply_arith(op, a.upper as int, b.upper as int);
        regular(clamp(min4(ll, lu, ul, uu)), clamp(max4(ll, lu, ul, uu)))
    }
}

pub open spec fn apply_unary(op: UnaryKind, a: int) -> int {
    match op {
        UnaryKind::Neg => -a,
        UnaryKind::Not => -a - 1,
    }
}

/// Interval arithmetic of a unary operation (both opcodes reverse the order).
pub open spec fn spec_unary(op: UnaryKind, r: Range) -> Range {
    let a = forced(r);
    if a.rtype == RangeType::Empty {
        spec_empty()
    } else {
        regular(clamp(apply_unary(op, a.upper as int)), clamp(apply_unary(op, a.lower as int)))
    }
}

/// The intersection of two ranges; `Empty` when they do not meet.
pub open spec fn spec_intersect(r1: Range, r2: Range) -> Range {
    let a = forced(r1);
    let b = forced(r2);
    if a.rtype == RangeType::Empty || b.rtype == RangeType::Empty {
        spec_empty()
    } else if max2(a.lower as int, b.lower as int) > min2(a.upper as int, b.upper as int) {
        spec_empty()
    } else {
        regular(max2(a.lower as int, b.lower as int), min2(a.upper as int, b.upper as int))
    }
}

/// The smallest range that covers both; `Unknown` and `Empty` add nothing.
pub open spec fn spec_union(r1: Range, r2: Range) -> Range {
    if r1.rtype != RangeType::Regular {
        if r2.rtype == RangeType::Regular || r1.rtype == RangeType::Unknown {
            r2
        } else {
            r1
        }
    } else if r2.rtype != RangeType::Regular {
        r1
    } else {
        regular(min2(r1.lower as int, r2.lower as int), max2(r1.upper as int, r2.upper as int))
    }
}

/// `r1` stands for no value that `r2` does not stand for.
pub open spec fn within(r1: Range, r2: Range) -> bool {
    r1.rtype == RangeType::Unknown || r1.rtype == RangeType::Empty || (r2.rtype
        == RangeType::Regular && r1.rtype == RangeType::Regular && r2.lower <= r1.lower
        && r1.upper <= r2.upper)
}

fn clamp_i128(x: i128) -> (r: i64)
    ensures
        r == clamp(x as int),
{
    if x < DOMAIN_MIN as i128 {
        DOMAIN_MIN
    } else if x > DOMAIN_MAX as i128 {
        DOMAIN_MAX
    } else {
        x as i64
    }
}

fn magnitude(a: i64) -> (r: u128)
    ensures
        r == abs(a as int),
{
    if a < 0 {
        (0i128 - a as i128) as u128
    } else {
        a as u128
    }
}

/// One endpoint combination, computed without overflow.
fn endpoint(op: ArithOp, a: i64, b: i64) -> (r: i128)
    requires
        op == ArithOp::Div || op == ArithOp::Rem ==> b != 0,
    ensures
        r == apply_arith(op, a as int, b as int),
{
    match op {
        ArithOp::Add => a as i128 + b as i128,
        ArithOp::Sub => a as i128 - b as i128,
        ArithOp::Mul => {
            assert(-0x4000_0000_0000_0000_0000_0000_0000_0000 <= (a as int) * (b as int)
                <= 0x4000_0000_0000_0000_0000_0000_0000_0000) by (nonlinear_arith)
                requires
                    DOMAIN_MIN <= a <= DOMAIN_MAX,
                    DOMAIN_MIN <= b <= DOMAIN_MAX,
            ;
            a as i128 * b as i128
        },
        _ => {
            let ua = magnitude(a);
            let ub = magnitude(b);
            let q = ua / ub;
            assert(q <= ua) by (nonlinear_arith)
                requires
                    q == ua / ub,
                    ub >= 1,
            ;
            let sq: i128 = if (a < 0) == (b < 0) {
                q as i128
            } else {
                0i128 - q as i128
            };
            assert(sq == trunc_div(a as int, b as int));
            if matches!(op, ArithOp::Div) {
                sq
            } else {
                assert(-0x4000_0000_0000_0000_0000_0000_0000_0000 <= (b as int) * (sq as int)
                    <= 0x4000_0000_0000_0000_0000_0000_0000_0000) by (nonlinear_arith)
                    requires
                        DOMAIN_MIN <= b <= DOMAIN_MAX,
                        -0x8000_0000_0000_0000 <= sq <= 0x8000_0000_0000_0000,
                ;
                a as i128 - b as i128 * sq
            }
        },
    }
}

impl Range {
    /// This range with `Unknown` read as the full domain.
    pub fn forced(&self) -> (r: Range)
        ensures
            r == forced(*self),
    {
        if self.is_unknown() {
            Range::full()
        } else {
            *self
        }
    }

    /// Interval arithmetic of `self op other`, saturating at the domain's bounds.
    pub fn binary(&self, op: ArithOp, other: &Range) -> (r: Range)
        ensures
            r == spec_binary(op, *self, *other),
    {
        let a = self.forced();
        let b = other.forced();
        if a.is_empty() || b.is_empty() {
            return Range::empty();
        }
        if (matches!(op, ArithOp::Div) || matches!(op, ArithOp::Rem)) && !((b.lower > 0 && b.upper
            > 0) || (b.lower < 0 && b.upper < 0)) {
            return Range::full();
        }
        let ll = endpoint(op, a.lower, b.lower);
        let lu = endpoint(op, a.lower, b.upper);
        let ul = endpoint(op, a.upper, b.lower);
        let uu = endpoint(op, a.upper, b.upper);
        let lo1 = if ll <= lu { ll } else { lu };
        let lo2 = if ul <= uu { ul } else { uu };
        let lo = if lo1 <= lo2 { lo1 } else { lo2 };
        let hi1 = if ll >= lu { ll } else { lu };
        let hi2 = if ul >= uu { ul } else { uu };
        let hi = if hi1 >= hi2 { hi1 } else { hi2 };
        Range { rtype: RangeType::Regular, lower: clamp_i128(lo), upper: clamp_i128(hi) }
    }

    /// Interval arithmetic of a unary operation.
    pub fn unary(&self, op: UnaryKind) -> (r: Range)
        ensures
            r == spec_unary(op, *self),
    {
        let a = self.forced();
        if a.is_empty() {
            return Range::empty();
        }
        let (lo, hi) = match op {
            UnaryKind::Neg => (0i128 - a.upper as i128, 0i128 - a.lower as i128),
            UnaryKind::Not => (-1i128 - a.upper as i128, -1i128 - a.lower as i128),
        };
        Range { rtype: RangeType::Regular, lower: clamp_i128(lo), upper: clamp_i128(hi) }
    }

    /// The intersection with `other`.
    pub fn intersect(&self, other: &Range) -> (r: Range)
        ensures
            r == spec_intersect(*self, *other),
    {
        let a = self.forced();
        let b = other.forced();
        if a.is_empty() || b.is_empty() {
            return Range::empty();
        }
        let lo = if a.lower >= b.lower { a.lower } else { b.lower };
        let hi = if a.upper <= b.upper { a.upper } else { b.upper };
        if lo > hi {
            Range::empty()
        } else {
            Range { rtype: RangeType::Regular, lower: lo, upper: hi }
        }
    }

    /// The smallest range covering `self` and `other`.
    pub fn union(&self, other: &Range) -> (r: Range)
        ensures
            r == spec_union(*self, *other),
    {
        if !self.is_regular() {
            if other.is_regular() || self.is_unknown() {
                *other
            } else {
                *self
            }
        } else if !other.is_regular() {
            *self
        } else {
            let lo = if self.lower <= other.lower { self.lower } else { other.lower };
            let hi = if self.upper >= other.upper { self.upper } else { other.upper };
            Range { rtype: RangeType::Regular, lower: lo, upper: hi }
        }
    }
}

} // verus!
