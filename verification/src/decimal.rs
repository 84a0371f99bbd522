//! Exact decimal scalars.
//!
//! Model coordinates and other fractional quantities as exact decimals:
//! a [`Decimal`] denotes `(-1)^neg * mantissa / 10^scale`, kept in a
//! normal form (no trailing zero digits in the fraction, no negative
//! zero), so two equal values always have equal fields. The type covers
//! every value with at most nineteen significant digits and eighteen
//! fractional digits; parsing rejects what lies outside.

use vstd::prelude::*;

verus! {

/// Largest mantissa: nineteen decimal digits.
pub const MAX_MANTISSA: u64 = 9_999_999_999_999_999_999;

/// Largest scale: eighteen fractional digits.
pub const MAX_SCALE: u32 = 18;

/// Ten to the `e`.
pub open spec fn pow10(e: nat) -> nat
    decreases e,
{
    if e == 0 {
        1
    } else {
        10 * pow10((e - 1) as nat)
    }
}

/// An exact decimal number `(-1)^neg * mantissa / 10^scale`.
#[derive(Clone, Copy, Debug, PartialEq, Eq, Structural)]
pub struct Decimal {
    /// Whether the value is negative. Zero is never negative.
    pub neg: bool,
    /// The significant digits, as an integer.
    pub mantissa: u64,
    /// How many of the mantissa's digits lie behind the decimal point.
    pub scale: u32,
}

/// The normal form of a mantissa and scale: trailing zero digits of the
/// fraction are divided out.
pub open spec fn strip(m: nat, s: nat) -> (nat, nat)
    decreases s,
{
    if s > 0 && m % 10 == 0 {
        strip(m / 10, (s - 1) as nat)
    } else {
        (m, s)
    }
}

impl Decimal {
    /// Within bounds and in normal form.
    pub open spec fn wf(self) -> bool {
        &&& self.mantissa <= MAX_MANTISSA
        &&& self.scale <= MAX_SCALE
        &&& self.scale == 0 || self.mantissa % 10 != 0
        &&& self.mantissa == 0 ==> !self.neg && self.scale == 0
    }

    /// The signed mantissa.
    pub open spec fn num(self) -> int {
        if self.neg {
            -(self.mantissa as int)
        } else {
            self.mantissa as int
        }
    }

    /// The decimal with sign `neg` and value `m / 10^s`, normalized.
    pub open spec fn spec_norm(neg: bool, m: nat, s: nat) -> Decimal {
        Decimal {
            neg: neg && strip(m, s).0 != 0,
            mantissa: strip(m, s).0 as u64,
            scale: strip(m, s).1 as u32,
        }
    }

    /// `self <= other` as rational numbers: cross-multiplied by the
    /// denominators, which are positive powers of ten.
    pub open spec fn spec_le(self, other: Decimal) -> bool {
        self.num() * pow10(other.scale as nat) <= other.num() * pow10(self.scale as nat)
    }

    /// The value zero.
    pub fn zero() -> (r: Decimal)
        ensures
            r == (Decimal { neg: false, mantissa: 0, scale: 0 }),
            r.wf(),
    {
        Decimal { neg: false, mantissa: 0, scale: 0 }
    }

    /// The value one.
    pub fn one() -> (r: Decimal)
        ensures
            r == (Decimal { neg: false, mantissa: 1, scale: 0 }),
            r.wf(),
    {
        Decimal { neg: false, mantissa: 1, scale: 0 }
    }

    /// The whole number `n`.
    pub fn from_int(n: i64) -> (r: Decimal)
        ensures
            r.wf(),
            r.scale == 0,
            r.num() == n as int,
    {
        if n < 0 {
            let m = (n as i128);
            Decimal { neg: true, mantissa: (-m) as u64, scale: 0 }
        } else {
            Decimal { neg: false, mantissa: n as u64, scale: 0 }
        }
    }

    /// The value `(-1)^neg * mantissa / 10^scale`, brought to normal
    /// form — the constructor for fractional test and caller values.
    pub fn from_scaled(neg: bool, mantissa: u64, scale: u32) -> (r: Decimal)
        requires
            mantissa <= MAX_MANTISSA,
            scale <= MAX_SCALE,
        ensures
            r == Decimal::spec_norm(neg, mantissa as nat, scale as nat),
            r.wf(),
    {
        let mut m = mantissa;
        let mut s = scale;
        while s > 0 && m % 10 == 0
            invariant
                m <= MAX_MANTISSA,
                s <= MAX_SCALE,
                strip(m as nat, s as nat) == strip(mantissa as nat, scale as nat),
            decreases s,
        {
            m = m / 10;
            s = s - 1;
        }
        Decimal { neg: neg && m != 0, mantissa: m, scale: s }
    }

    /// Ten to the `e`, as a machine word.
    fn pow10_exec(e: u32) -> (r: u64)
        requires
            e <= 19,
        ensures
            r == pow10(e as nat),
    {
        let mut r: u64 = 1;
        let mut i: u32 = 0;
        while i < e
            invariant
                i <= e <= 19,
                r == pow10(i as nat),
            decreases e - i,
        {
            proof {
                lemma_pow10_19();
                lemma_pow10_mono((i + 1) as nat, 19);
                assert(pow10((i + 1) as nat) == 10 * pow10(i as nat));
            }
            r = r * 10;
            i = i + 1;
        }
        r
    }

    /// `self <= other` as exact values.
    pub fn le(self, other: Decimal) -> (r: bool)
        requires
            self.wf(),
            other.wf(),
        ensures
            r == self.spec_le(other),
    {
        proof {
            lemma_pow10_18();
            lemma_pow10_mono(self.scale as nat, MAX_SCALE as nat);
            lemma_pow10_mono(other.scale as nat, MAX_SCALE as nat);
            lemma_pow10_pos(self.scale as nat);
            lemma_pow10_pos(other.scale as nat);
        }
        let pa = Decimal::pow10_exec(self.scale);
        let pb = Decimal::pow10_exec(other.scale);
        proof {
            assert(pa <= 1_000_000_000_000_000_000 && pb <= 1_000_000_000_000_000_000);
            assert((self.mantissa as int) * (pb as int) <= (MAX_MANTISSA as int)
                * 1_000_000_000_000_000_000 && (self.mantissa as int) * (pb as int) >= 0)
                by (nonlinear_arith)
                requires
                    0 <= self.mantissa <= MAX_MANTISSA,
                    0 <= pb <= 1_000_000_000_000_000_000,
            ;
            assert((other.mantissa as int) * (pa as int) <= (MAX_MANTISSA as int)
                * 1_000_000_000_000_000_000 && (other.mantissa as int) * (pa as int) >= 0)
                by (nonlinear_arith)
                requires
                    0 <= other.mantissa <= MAX_MANTISSA,
                    0 <= pa <= 1_000_000_000_000_000_000,
            ;
        }
        let lhs: u128 = (self.mantissa as u128) * (pb as u128);
        let rhs: u128 = (other.mantissa as u128) * (pa as u128);
        if self.neg && !other.neg {
            proof {
                assert((self.num()) * pow10(other.scale as nat) < 0 <= (other.num()) * pow10(
                    self.scale as nat,
                )) by (nonlinear_arith)
                    requires
                        self.num() < 0,
                        other.num() >= 0,
                        pow10(other.scale as nat) > 0,
                        pow10(self.scale as nat) > 0,
                ;
            }
            true
        } else if !self.neg && other.neg {
            proof {
                assert((other.num()) * pow10(self.scale as nat) < 0 <= (self.num()) * pow10(
                    other.scale as nat,
                )) by (nonlinear_arith)
                    requires
                        other.num() < 0,
                        self.num() >= 0,
                        pow10(other.scale as nat) > 0,
                        pow10(self.scale as nat) > 0,
                ;
            }
            false
        } else if !self.neg {
            proof {
                assert((lhs <= rhs) == self.spec_le(other));
            }
            lhs <= rhs
        } else {
            proof {
                lemma_neg_mul(self.mantissa as int, pb as int);
                lemma_neg_mul(other.mantissa as int, pa as int);
                assert((rhs <= lhs) == self.spec_le(other));
            }
            rhs <= lhs
        }
    }

    /// The normalized mantissa and scale of a product.
    pub open spec fn spec_mul_parts(self, other: Decimal) -> (nat, nat) {
        strip((self.mantissa * other.mantissa) as nat, (self.scale + other.scale) as nat)
    }

    /// Whether the exact product of two decimals is representable.
    pub open spec fn mul_fits(self, other: Decimal) -> bool {
        self.spec_mul_parts(other).0 <= MAX_MANTISSA && self.spec_mul_parts(other).1
            <= MAX_SCALE
    }

    /// The exact product, normalized.
    pub open spec fn spec_mul(self, other: Decimal) -> Decimal {
        Decimal {
            neg: (self.neg != other.neg) && self.spec_mul_parts(other).0 != 0,
            mantissa: self.spec_mul_parts(other).0 as u64,
            scale: self.spec_mul_parts(other).1 as u32,
        }
    }

    /// Multiplies two exact values. The product of the mantissas must be
    /// representable after normalization — a machine limit, not a rule
    /// of the arithmetic.
    pub fn mul(self, other: Decimal) -> (r: Decimal)
        requires
            self.wf(),
            other.wf(),
            self.mul_fits(other),
        ensures
            r == self.spec_mul(other),
            r.wf(),
    {
        proof {
            assert((self.mantissa as int) * (other.mantissa as int) <= (MAX_MANTISSA as int)
                * (MAX_MANTISSA as int) && (self.mantissa as int) * (other.mantissa as int)
                >= 0) by (nonlinear_arith)
                requires
                    0 <= self.mantissa <= MAX_MANTISSA,
                    0 <= other.mantissa <= MAX_MANTISSA,
            ;
        }
        let p: u128 = (self.mantissa as u128) * (other.mantissa as u128);
        let ghost s0 = (self.scale + other.scale) as nat;
        let mut m: u128 = p;
        let mut s: u32 = self.scale + other.scale;
        while s > 0 && m % 10 == 0
            invariant
                m <= p,
                strip(m as nat, s as nat) == strip(p as nat, s0),
            decreases s,
        {
            m = m / 10;
            s = s - 1;
        }
        proof {
            assert(strip(m as nat, s as nat) == (m as nat, s as nat));
        }
        Decimal { neg: (self.neg != other.neg) && m != 0, mantissa: m as u64, scale: s }
    }

    /// The smaller of two exact values (either one if equal).
    pub fn min_of(self, other: Decimal) -> (r: Decimal)
        requires
            self.wf(),
            other.wf(),
        ensures
            r == if self.spec_le(other) {
                self
            } else {
                other
            },
            r.wf(),
    {
        if self.le(other) {
            self
        } else {
            other
        }
    }

    /// The larger of two exact values (either one if equal).
    pub fn max_of(self, other: Decimal) -> (r: Decimal)
        requires
            self.wf(),
            other.wf(),
        ensures
            r == if self.spec_le(other) {
                other
            } else {
                self
            },
            r.wf(),
    {
        if self.le(other) {
            other
        } else {
            self
        }
    }
}

/// Negation moves out of a product.
proof fn lemma_neg_mul(x: int, y: int)
    ensures
        (-x) * y == -(x * y),
{
    assert((-x) * y == -(x * y)) by (nonlinear_arith);
}

/// Ten to the anything is positive.
pub proof fn lemma_pow10_pos(e: nat)
    ensures
        pow10(e) >= 1,
    decreases e,
{
    if e > 0 {
        lemma_pow10_pos((e - 1) as nat);
    }
}

/// Ten to the power is monotone in the exponent.
pub proof fn lemma_pow10_mono(e1: nat, e2: nat)
    requires
        e1 <= e2,
    ensures
        pow10(e1) <= pow10(e2),
    decreases e2,
{
    if e1 < e2 {
        lemma_pow10_mono(e1, (e2 - 1) as nat);
        lemma_pow10_pos((e2 - 1) as nat);
    }
}

/// The largest power of ten a scale can ask for.
pub proof fn lemma_pow10_18()
    ensures
        pow10(18) == 1_000_000_000_000_000_000,
{
    reveal_with_fuel(pow10, 19);
    assert(pow10(18) == 1_000_000_000_000_000_000);
}

/// The largest power of ten a mantissa can carry.
pub proof fn lemma_pow10_19()
    ensures
        pow10(19) == 10_000_000_000_000_000_000,
{
    reveal_with_fuel(pow10, 20);
    assert(pow10(19) == 10_000_000_000_000_000_000);
}

/// Twenty digits no longer fit a mantissa.
pub proof fn lemma_pow10_20()
    ensures
        pow10(20) == 100_000_000_000_000_000_000,
{
    reveal_with_fuel(pow10, 21);
    assert(pow10(20) == 100_000_000_000_000_000_000);
}

/// The order on exact values is transitive.
pub proof fn lemma_le_trans(a: Decimal, b: Decimal, c: Decimal)
    requires
        a.spec_le(b),
        b.spec_le(c),
    ensures
        a.spec_le(c),
{
    lemma_pow10_pos(a.scale as nat);
    lemma_pow10_pos(b.scale as nat);
    lemma_pow10_pos(c.scale as nat);
    assert(a.num() * pow10(c.scale as nat) <= c.num() * pow10(a.scale as nat))
        by (nonlinear_arith)
        requires
            a.num() * pow10(b.scale as nat) <= b.num() * pow10(a.scale as nat),
            b.num() * pow10(c.scale as nat) <= c.num() * pow10(b.scale as nat),
            pow10(a.scale as nat) >= 1,
            pow10(b.scale as nat) >= 1,
            pow10(c.scale as nat) >= 1,
    ;
}

/// Taking a minimum with anything keeps a lower bound.
pub proof fn lemma_min_keeps_lower(m: Decimal, v: Decimal, x: Decimal)
    requires
        m.spec_le(x),
    ensures
        (if m.spec_le(v) {
            m
        } else {
            v
        }).spec_le(x),
{
    if !m.spec_le(v) {
        assert(v.spec_le(m));
        lemma_le_trans(v, m, x);
    }
}

/// Taking a maximum with anything keeps an upper bound.
pub proof fn lemma_max_keeps_upper(m: Decimal, v: Decimal, x: Decimal)
    requires
        x.spec_le(m),
    ensures
        x.spec_le(
            if m.spec_le(v) {
                v
            } else {
                m
            },
        ),
{
    if m.spec_le(v) {
        lemma_le_trans(x, m, v);
    }
}

/// An ASCII decimal digit.
pub open spec fn is_digit(c: u8) -> bool {
    48 <= c <= 57
}

/// The value of one digit character; non-digits count as zero.
pub open spec fn digit_val(c: u8) -> nat {
    if is_digit(c) {
        (c - 48) as nat
    } else {
        0
    }
}

/// Every byte is an ASCII digit.
pub open spec fn all_digits(s: Seq<u8>) -> bool {
    forall|i: int| 0 <= i < s.len() ==> is_digit(s[i])
}

/// The number a digit string denotes, most significant digit first.
pub open spec fn digits_val(s: Seq<u8>) -> nat
    decreases s.len(),
{
    if s.len() == 0 {
        0
    } else {
        digits_val(s.drop_last()) * 10 + digit_val(s.last())
    }
}

/// The index of the first `.` in `s`, or `-1` if there is none.
pub open spec fn find_dot(s: Seq<u8>) -> int
    decreases s.len(),
{
    if s.len() == 0 {
        -1
    } else if s[0] == 46 {
        0
    } else if find_dot(s.drop_first()) < 0 {
        -1
    } else {
        find_dot(s.drop_first()) + 1
    }
}

/// What parsing an unsigned integer token yields: the token must be all
/// digits, non-empty, and fit the machine word.
pub open spec fn spec_parse_usize(s: Seq<u8>) -> Option<usize> {
    if s.len() > 0 && all_digits(s) && digits_val(s) <= usize::MAX {
        Some(digits_val(s) as usize)
    } else {
        None
    }
}

/// What parsing a decimal token yields. The token is an optional sign,
/// then digits with at most one point among them (at least one digit in
/// all); its value must fit the mantissa and, after normalization, the
/// scale. Exponent forms are not part of the grammar.
pub open spec fn spec_parse_decimal(s: Seq<u8>) -> Option<Decimal> {
    let neg = s.len() > 0 && s[0] == 45;
    let body = if s.len() > 0 && (s[0] == 45 || s[0] == 43) {
        s.drop_first()
    } else {
        s
    };
    let dot = find_dot(body);
    let intpart = if dot >= 0 {
        body.subrange(0, dot)
    } else {
        body
    };
    let fracpart = if dot >= 0 {
        body.subrange(dot + 1, body.len() as int)
    } else {
        Seq::<u8>::empty()
    };
    if all_digits(intpart) && all_digits(fracpart) && intpart.len() + fracpart.len() > 0
        && digits_val(intpart + fracpart) <= MAX_MANTISSA && strip(
        digits_val(intpart + fracpart),
        fracpart.len(),
    ).1 <= MAX_SCALE {
        Some(Decimal::spec_norm(neg, digits_val(intpart + fracpart), fracpart.len()))
    } else {
        None
    }
}

/// A digit string is worth at least any of its prefixes.
pub proof fn lemma_digits_val_prefix(s: Seq<u8>, n: int)
    requires
        0 <= n <= s.len(),
    ensures
        digits_val(s.subrange(0, n)) <= digits_val(s),
    decreases s.len() - n,
{
    if n == s.len() {
        assert(s.subrange(0, n) =~= s);
    } else {
        assert(s.subrange(0, n + 1).drop_last() =~= s.subrange(0, n));
        assert(digits_val(s.subrange(0, n + 1)) == digits_val(s.subrange(0, n)) * 10
            + digit_val(s[n]));
        lemma_digits_val_prefix(s, n + 1);
    }
}

/// Concatenating digit strings: the left part is shifted by the length
/// of the right part.
pub proof fn lemma_digits_val_concat(x: Seq<u8>, y: Seq<u8>)
    ensures
        digits_val(x + y) == digits_val(x) * pow10(y.len()) + digits_val(y),
    decreases y.len(),
{
    if y.len() == 0 {
        assert(x + y =~= x);
        assert(pow10(y.len()) == 1);
        assert(digits_val(y) == 0);
        assert(digits_val(x) * 1 == digits_val(x)) by (nonlinear_arith);
    } else {
        let y0 = y.drop_last();
        lemma_digits_val_concat(x, y0);
        assert((x + y).drop_last() =~= x + y0);
        assert(digits_val(x + y) == digits_val(x + y0) * 10 + digit_val(y.last()));
        assert((digits_val(x) * pow10(y0.len()) + digits_val(y0)) * 10 == digits_val(x) * (
        pow10(y0.len()) * 10) + digits_val(y0) * 10) by (nonlinear_arith);
        assert(pow10(y.len()) == 10 * pow10(y0.len()));
        assert(digits_val(x) * (pow10(y0.len()) * 10) == digits_val(x) * pow10(y.len()))
            by (nonlinear_arith)
            requires
                pow10(y.len()) == 10 * pow10(y0.len()),
        ;
        assert(digits_val(y) == digits_val(y0) * 10 + digit_val(y.last()));
    }
}

/// Where the first point is: before it there is none, and there it is.
proof fn lemma_find_dot_at(s: Seq<u8>, p: int)
    requires
        0 <= p < s.len(),
        s[p] == 46,
        forall|j: int| 0 <= j < p ==> s[j] != 46,
    ensures
        find_dot(s) == p,
    decreases p,
{
    if p > 0 {
        lemma_find_dot_at(s.drop_first(), p - 1);
    }
}

/// A string without a point has no first point.
proof fn lemma_find_dot_none(s: Seq<u8>)
    requires
        forall|j: int| 0 <= j < s.len() ==> s[j] != 46,
    ensures
        find_dot(s) == -1,
    decreases s.len(),
{
    if s.len() > 0 {
        lemma_find_dot_none(s.drop_first());
    }
}


/// Parses `tok[from..to]` as an unsigned integer: all digits,
/// non-empty, fitting the machine word; anything else yields nothing.
pub fn parse_usize_range(tok: &[u8], from: usize, to: usize) -> (r: Option<usize>)
    requires
        from <= to <= tok@.len(),
    ensures
        r == spec_parse_usize(tok@.subrange(from as int, to as int)),
{
    let ghost seg = tok@.subrange(from as int, to as int);
    if to - from == 0 {
        return None;
    }
    let mut val: usize = 0;
    let mut i: usize = from;
    while i < to
        invariant
            from <= i <= to <= tok@.len(),
            seg == tok@.subrange(from as int, to as int),
            all_digits(seg.subrange(0, i - from)),
            val == digits_val(seg.subrange(0, i - from)),
        decreases to - i,
    {
        let c = tok[i];
        proof {
            assert(seg[i - from] == tok@[i as int]);
        }
        if c < 48 || c > 57 {
            proof {
                assert(!is_digit(seg[i - from]));
            }
            return None;
        }
        proof {
            assert(seg.subrange(0, i - from + 1).drop_last() =~= seg.subrange(0, i - from));
            assert(seg.subrange(0, i - from + 1).last() == seg[i - from]);
        }
        let v128: u128 = (val as u128) * 10 + ((c - 48) as u128);
        if v128 > (usize::MAX as u128) {
            proof {
                lemma_digits_val_prefix(seg, i - from + 1);
            }
            return None;
        }
        val = v128 as usize;
        i = i + 1;
    }
    proof {
        assert(seg.subrange(0, to - from) =~= seg);
    }
    Some(val)
}

/// Parses an unsigned integer token: all digits, non-empty, fitting the
/// machine word; anything else yields nothing.
pub fn parse_usize(tok: &[u8]) -> (r: Option<usize>)
    ensures
        r == spec_parse_usize(tok@),
{
    let r = parse_usize_range(tok, 0, tok.len());
    proof {
        assert(tok@.subrange(0, tok@.len() as int) =~= tok@);
    }
    r
}

/// Scans `tok[from..to]` as digits, giving their value when they are
/// all digits and fit the mantissa; nothing otherwise.
fn scan_digits(tok: &[u8], from: usize, to: usize) -> (r: Option<u64>)
    requires
        from <= to <= tok@.len(),
    ensures
        r is Some ==> all_digits(tok@.subrange(from as int, to as int)) && digits_val(
            tok@.subrange(from as int, to as int),
        ) <= MAX_MANTISSA && r.unwrap() == digits_val(tok@.subrange(from as int, to as int)),
        r is None ==> !(all_digits(tok@.subrange(from as int, to as int)) && digits_val(
            tok@.subrange(from as int, to as int),
        ) <= MAX_MANTISSA),
{
    let ghost seg = tok@.subrange(from as int, to as int);
    let mut val: u64 = 0;
    let mut i: usize = from;
    while i < to
        invariant
            from <= i <= to <= tok@.len(),
            seg == tok@.subrange(from as int, to as int),
            all_digits(seg.subrange(0, i - from)),
            val == digits_val(seg.subrange(0, i - from)),
            val <= MAX_MANTISSA,
        decreases to - i,
    {
        let c = tok[i];
        proof {
            assert(seg[i - from] == tok@[i as int]);
        }
        if c < 48 || c > 57 {
            proof {
                assert(!is_digit(seg[i - from]));
            }
            return None;
        }
        proof {
            assert(seg.subrange(0, i - from + 1).drop_last() =~= seg.subrange(0, i - from));
            assert(seg.subrange(0, i - from + 1).last() == seg[i - from]);
        }
        let v128: u128 = (val as u128) * 10 + ((c - 48) as u128);
        if v128 > (MAX_MANTISSA as u128) {
            proof {
                lemma_digits_val_prefix(seg, i - from + 1);
            }
            return None;
        }
        val = v128 as u64;
        i = i + 1;
    }
    proof {
        assert(seg.subrange(0, to - from) =~= seg);
    }
    Some(val)
}

/// Parses a decimal token: an optional sign, then digits with at most
/// one point among them and at least one digit in all. Values beyond
/// nineteen significant digits, or with more than eighteen fractional
/// digits after normalization, yield nothing, as does any other
/// malformed token.
#[verifier::rlimit(60)]
pub fn parse_decimal(tok: &[u8]) -> (r: Option<Decimal>)
    ensures
        r == spec_parse_decimal(tok@),
        r is Some ==> r.unwrap().wf(),
{
    let n = tok.len();
    let start: usize = if n > 0 && (tok[0] == 45 || tok[0] == 43) {
        1
    } else {
        0
    };
    let neg = n > 0 && tok[0] == 45;
    let ghost body = tok@.subrange(start as int, n as int);
    proof {
        if start == 1 {
            assert(body =~= tok@.drop_first());
        } else {
            assert(body =~= tok@);
        }
    }
    // find the first point, if any
    let mut dot: usize = n;
    let mut j: usize = start;
    while j < n
        invariant
            start <= j <= n,
            n == tok@.len(),
            dot == n || (start <= dot && dot < j && tok@[dot as int] == 46 && forall|k: int|
                start <= k < dot ==> tok@[k] != 46),
            dot == n ==> forall|k: int| start <= k < j ==> tok@[k] != 46,
        decreases n - j,
    {
        if dot == n && tok[j] == 46 {
            dot = j;
        }
        j = j + 1;
    }
    proof {
        if dot < n {
            lemma_find_dot_at(body, dot - start);
            assert(find_dot(body) == dot - start);
        } else {
            lemma_find_dot_none(body);
            assert(find_dot(body) == -1);
        }
    }
    let int_to: usize = if dot < n {
        dot
    } else {
        n
    };
    let ghost intpart = body.subrange(0, int_to - start);
    let ghost fracpart = if dot < n {
        body.subrange(dot - start + 1, body.len() as int)
    } else {
        Seq::<u8>::empty()
    };
    proof {
        assert(intpart =~= tok@.subrange(start as int, int_to as int));
        if dot < n {
            assert(fracpart =~= tok@.subrange(dot as int + 1, n as int));
        }
    }
    if int_to - start == 0 && (dot >= n || n - dot - 1 == 0) {
        // not a single digit anywhere
        return None;
    }
    let m_int = match scan_digits(tok, start, int_to) {
        Some(v) => v,
        None => {
            proof {
                lemma_digits_val_concat(intpart, fracpart);
                lemma_pow10_pos(fracpart.len());
                if all_digits(intpart) {
                    assert(digits_val(intpart) * pow10(fracpart.len()) >= digits_val(
                        intpart,
                    )) by (nonlinear_arith)
                        requires
                            pow10(fracpart.len()) >= 1,
                            digits_val(intpart) >= 0,
                    ;
                }
            }
            return None;
        },
    };
    let m_frac = if dot < n {
        match scan_digits(tok, dot + 1, n) {
            Some(v) => v,
            None => {
                proof {
                    lemma_digits_val_concat(intpart, fracpart);
                    lemma_pow10_pos(fracpart.len());
                    assert(digits_val(intpart) * pow10(fracpart.len()) >= 0)
                        by (nonlinear_arith)
                        requires
                            pow10(fracpart.len()) >= 1,
                            digits_val(intpart) >= 0,
                    ;
                }
                return None;
            },
        }
    } else {
        0
    };
    let frac_len: usize = if dot < n {
        n - dot - 1
    } else {
        0
    };
    proof {
        assert(intpart.len() == int_to - start);
        assert(fracpart.len() == frac_len);
        lemma_digits_val_concat(intpart, fracpart);
    }
    // combine the two parts: the value is m_int * 10^frac_len + m_frac
    let total: u64 = if m_int == 0 {
        m_frac
    } else {
        if frac_len > 19 {
            proof {
                lemma_pow10_20();
                lemma_pow10_mono(20, fracpart.len());
                assert(digits_val(intpart) * pow10(fracpart.len()) >= 1 * pow10(
                    fracpart.len(),
                )) by (nonlinear_arith)
                    requires
                        digits_val(intpart) >= 1,
                        pow10(fracpart.len()) >= 0,
                ;
            }
            return None;
        }
        let p = Decimal::pow10_exec(frac_len as u32);
        proof {
            lemma_pow10_19();
            lemma_pow10_mono(frac_len as nat, 19);
            assert((m_int as int) * (p as int) <= (MAX_MANTISSA as int)
                * 10_000_000_000_000_000_000 && (m_int as int) * (p as int) >= 0)
                by (nonlinear_arith)
                requires
                    0 <= m_int <= MAX_MANTISSA,
                    0 <= p <= 10_000_000_000_000_000_000,
            ;
        }
        let t128: u128 = (m_int as u128) * (p as u128) + (m_frac as u128);
        if t128 > (MAX_MANTISSA as u128) {
            return None;
        }
        t128 as u64
    };
    // normalize
    let ghost total0 = total;
    let ghost s0 = frac_len;
    let mut m: u64 = total;
    let mut s: usize = frac_len;
    while s > 0 && m % 10 == 0
        invariant
            m <= MAX_MANTISSA,
            strip(m as nat, s as nat) == strip(total0 as nat, s0 as nat),
        decreases s,
    {
        m = m / 10;
        s = s - 1;
    }
    if s > MAX_SCALE as usize {
        return None;
    }
    Some(Decimal { neg: neg && m != 0, mantissa: m, scale: s as u32 })
}

} // verus!
