//! Numbers of SQL/JSON: 64-bit integers and bounded decimal fractions.
//!
//! A fractional number is held exactly as a signed magnitude with a decimal scale:
//! its value is `mag / 10^scale`. The magnitude stays below `10^19` and the scale
//! at most 18; arithmetic whose exact result does not fit drops trailing decimal
//! digits (truncation toward zero) and fails only when the integer part itself
//! is too large.

use vstd::prelude::*;
use crate::error::EvalError;

verus! {

/// Upper bound (exclusive) of a decimal magnitude.
pub const DEC_BOUND: u64 = 10_000_000_000_000_000_000;

/// Largest decimal scale.
pub const MAX_SCALE: u32 = 18;

/// Powers of ten.
pub open spec fn pow10(n: nat) -> int
    decreases n,
{
    if n == 0 {
        1
    } else {
        10 * pow10((n - 1) as nat)
    }
}

pub proof fn lemma_pow10_pos(n: nat)
    ensures
        pow10(n) >= 1,
    decreases n,
{
    if n > 0 {
        lemma_pow10_pos((n - 1) as nat);
    }
}

pub proof fn lemma_pow10_mono(a: nat, b: nat)
    requires
        a <= b,
    ensures
        pow10(a) <= pow10(b),
    decreases b,
{
    if a < b {
        lemma_pow10_mono(a, (b - 1) as nat);
        lemma_pow10_pos((b - 1) as nat);
    }
}

pub proof fn lemma_pow10_values()
    ensures
        pow10(18) == 1_000_000_000_000_000_000,
        pow10(19) == 10_000_000_000_000_000_000,
        pow10(36) == 1_000_000_000_000_000_000_000_000_000_000_000_000,
        pow10(37) == 10_000_000_000_000_000_000_000_000_000_000_000_000,
        pow10(38) == 100_000_000_000_000_000_000_000_000_000_000_000_000,
{
    reveal_with_fuel(pow10, 40);
}

/// `10^n` as an unsigned 128-bit integer.
pub fn pow10_u128(n: u32) -> (r: u128)
    requires
        n <= 38,
    ensures
        r == pow10(n as nat),
{
    proof {
        lemma_pow10_values();
    }
    let mut r: u128 = 1;
    let mut i: u32 = 0;
    while i < n
        invariant
            i <= n <= 38,
            r == pow10(i as nat),
            pow10(38) == 100_000_000_000_000_000_000_000_000_000_000_000_000,
        decreases n - i,
    {
        proof {
            lemma_pow10_mono((i + 1) as nat, 38);
        }
        r = r * 10;
        i = i + 1;
    }
    r
}

/// A decimal fraction `±mag / 10^scale` with a bounded magnitude and scale.
#[derive(Debug, Clone, Copy, PartialEq, Eq)]
pub struct Decimal {
    neg: bool,
    mag: u64,
    scale: u32,
}

impl Decimal {
    #[verifier::type_invariant]
    spec fn inv(self) -> bool {
        &&& self.mag < DEC_BOUND
        &&& self.scale <= MAX_SCALE
        &&& (self.mag == 0 ==> !self.neg)
    }

    /// Whether the decimal is negative.
    pub closed spec fn spec_neg(self) -> bool {
        self.neg
    }

    /// The magnitude of the decimal, scaled by `10^scale`.
    pub closed spec fn spec_mag(self) -> nat {
        self.mag as nat
    }

    /// The number of decimal digits after the point.
    pub closed spec fn spec_scale(self) -> nat {
        self.scale as nat
    }

    /// The signed scaled mantissa: the value times `10^scale`.
    pub open spec fn spec_mant(self) -> int {
        if self.spec_neg() {
            -(self.spec_mag() as int)
        } else {
            self.spec_mag() as int
        }
    }

    /// Builds a decimal from its parts, if they are in range.
    pub fn new(neg: bool, mag: u64, scale: u32) -> (r: Option<Decimal>)
        ensures
            r is Some <==> (mag < DEC_BOUND && scale <= MAX_SCALE),
            r matches Some(d) ==> d.spec_neg() == (neg && mag != 0) && d.spec_mag() == mag
                && d.spec_scale() == scale,
    {
        if mag < DEC_BOUND && scale <= MAX_SCALE {
            Some(Decimal { neg: neg && mag != 0, mag, scale })
        } else {
            None
        }
    }

    /// Whether the decimal is negative.
    pub fn is_negative(&self) -> (b: bool)
        ensures
            b == self.spec_neg(),
    {
        self.neg
    }

    /// The magnitude, scaled by `10^scale`.
    pub fn magnitude(&self) -> (m: u64)
        ensures
            m == self.spec_mag(),
            m < DEC_BOUND,
    {
        proof {
            use_type_invariant(self);
        }
        self.mag
    }

    /// The number of digits after the decimal point.
    pub fn scale(&self) -> (s: u32)
        ensures
            s == self.spec_scale(),
            s <= MAX_SCALE,
    {
        proof {
            use_type_invariant(self);
        }
        self.scale
    }
}

/// Reduces an exact decimal `±mag / 10^scale` into range by dropping trailing digits
/// (truncation toward zero); `None` when the integer part is too large.
pub closed spec fn spec_fit(neg: bool, mag: nat, scale: nat) -> Option<Decimal>
    decreases scale,
{
    if scale <= MAX_SCALE && mag < DEC_BOUND {
        Some(Decimal { neg: neg && mag != 0, mag: mag as u64, scale: scale as u32 })
    } else if scale == 0 {
        None
    } else {
        spec_fit(neg, mag / 10, (scale - 1) as nat)
    }
}

/// Exec counterpart of [`spec_fit`].
fn fit(neg: bool, mag: u128, scale: u32) -> (r: Option<Decimal>)
    ensures
        r == spec_fit(neg, mag as nat, scale as nat),
{
    let mut m = mag;
    let mut s = scale;
    while (s > MAX_SCALE || m >= DEC_BOUND as u128) && s > 0
        invariant
            spec_fit(neg, m as nat, s as nat) == spec_fit(neg, mag as nat, scale as nat),
        decreases s,
    {
        m = m / 10;
        s = s - 1;
    }
    if m >= DEC_BOUND as u128 || s > MAX_SCALE {
        None
    } else {
        Some(Decimal { neg: neg && m != 0, mag: m as u64, scale: s })
    }
}


/// A SQL/JSON number: a 64-bit integer or a decimal fraction.
#[derive(Debug, Clone, Copy, PartialEq, Eq)]
pub enum Number {
    /// An integer.
    Int(i64),
    /// A fractional (approximate) number.
    Float(Decimal),
}

/// The signed mantissa of a number: its value times `10^scale`.
pub open spec fn num_mant(n: Number) -> int {
    match n {
        Number::Int(i) => i as int,
        Number::Float(d) => d.spec_mant(),
    }
}

/// The decimal scale of a number (0 for integers).
pub open spec fn num_scale(n: Number) -> nat {
    match n {
        Number::Int(_) => 0,
        Number::Float(d) => d.spec_scale(),
    }
}

/// The larger of two scales.
pub open spec fn max_scale(a: Number, b: Number) -> nat {
    if num_scale(a) >= num_scale(b) {
        num_scale(a)
    } else {
        num_scale(b)
    }
}

/// The mantissa of `n` written at scale `s` (at least the scale of `n`).
pub open spec fn num_aligned(n: Number, s: nat) -> int {
    num_mant(n) * pow10((s - num_scale(n)) as nat)
}

/// Exact numeric equality.
pub open spec fn num_equal(a: Number, b: Number) -> bool {
    num_aligned(a, max_scale(a, b)) == num_aligned(b, max_scale(a, b))
}

/// Exact numeric order.
pub open spec fn num_less(a: Number, b: Number) -> bool {
    num_aligned(a, max_scale(a, b)) < num_aligned(b, max_scale(a, b))
}

/// Whether a number is zero.
pub open spec fn num_is_zero(n: Number) -> bool {
    num_mant(n) == 0
}

pub open spec fn abs_int(m: int) -> nat {
    if m < 0 {
        (-m) as nat
    } else {
        m as nat
    }
}

/// The exact decimal `m / 10^s`, reduced into range.
pub closed spec fn spec_from_dec(m: int, s: nat) -> Option<Number> {
    match spec_fit(m < 0, abs_int(m), s) {
        Some(d) => Some(Number::Float(d)),
        None => None,
    }
}

/// The exact integer `m`: an integer when it fits 64 bits, a decimal otherwise.
pub closed spec fn spec_from_int(m: int) -> Option<Number> {
    if i64::MIN <= m <= i64::MAX {
        Some(Number::Int(m as i64))
    } else {
        spec_from_dec(m, 0)
    }
}

/// Negation.
pub closed spec fn spec_num_neg(a: Number) -> Option<Number> {
    match a {
        Number::Int(i) => spec_from_int(-(i as int)),
        Number::Float(d) => spec_from_dec(-d.spec_mant(), d.spec_scale()),
    }
}

/// Addition.
pub closed spec fn spec_num_add(a: Number, b: Number) -> Option<Number> {
    if a is Int && b is Int {
        spec_from_int(num_mant(a) + num_mant(b))
    } else {
        spec_from_dec(num_aligned(a, max_scale(a, b)) + num_aligned(b, max_scale(a, b)), max_scale(a, b))
    }
}

/// Subtraction.
pub closed spec fn spec_num_sub(a: Number, b: Number) -> Option<Number> {
    if a is Int && b is Int {
        spec_from_int(num_mant(a) - num_mant(b))
    } else {
        spec_from_dec(num_aligned(a, max_scale(a, b)) - num_aligned(b, max_scale(a, b)), max_scale(a, b))
    }
}

/// Multiplication.
pub closed spec fn spec_num_mul(a: Number, b: Number) -> Option<Number> {
    if a is Int && b is Int {
        spec_from_int(num_mant(a) * num_mant(b))
    } else {
        spec_from_dec(num_mant(a) * num_mant(b), num_scale(a) + num_scale(b))
    }
}

/// Magnitude of the quotient `a / b`, scaled by `10^18` and truncated.
pub open spec fn div_scaled(a: Number, b: Number) -> nat {
    (abs_int(num_aligned(a, max_scale(a, b))) * pow10(MAX_SCALE as nat)) as nat
        / abs_int(num_aligned(b, max_scale(a, b)))
}

/// Division (always fractional), truncated to the available digits; `b` is not zero.
pub closed spec fn spec_num_div(a: Number, b: Number) -> Option<Number> {
    let neg = (num_mant(a) < 0) != (num_mant(b) < 0);
    match spec_fit(neg, div_scaled(a, b), MAX_SCALE as nat) {
        Some(d) => Some(Number::Float(d)),
        None => None,
    }
}

/// Remainder with the sign of the dividend; `b` is not zero.
pub closed spec fn spec_num_rem(a: Number, b: Number) -> Option<Number> {
    let r = abs_int(num_aligned(a, max_scale(a, b))) % abs_int(num_aligned(b, max_scale(a, b)));
    let m = if num_mant(a) < 0 { -(r as int) } else { r as int };
    if a is Int && b is Int {
        spec_from_int(m)
    } else {
        spec_from_dec(m, max_scale(a, b))
    }
}

/// Clamps an integer into the 64-bit range.
pub open spec fn saturate(m: int) -> i64 {
    if m < i64::MIN {
        i64::MIN
    } else if m > i64::MAX {
        i64::MAX
    } else {
        m as i64
    }
}

/// Floor of `m / 10^s`.
pub open spec fn floor_div(m: int, s: nat) -> int {
    m / pow10(s)
}

/// Ceiling of `m / 10^s`.
pub open spec fn ceil_div(m: int, s: nat) -> int {
    -((-m) / pow10(s))
}

/// The largest integer not greater than the number.
pub open spec fn spec_num_floor(a: Number) -> Number {
    match a {
        Number::Int(_) => a,
        Number::Float(d) => Number::Int(saturate(floor_div(d.spec_mant(), d.spec_scale()))),
    }
}

/// The smallest integer not less than the number.
pub open spec fn spec_num_ceil(a: Number) -> Number {
    match a {
        Number::Int(_) => a,
        Number::Float(d) => Number::Int(saturate(ceil_div(d.spec_mant(), d.spec_scale()))),
    }
}

/// Absolute value.
pub closed spec fn spec_num_abs(a: Number) -> Option<Number> {
    match a {
        Number::Int(i) => spec_from_int(abs_int(i as int) as int),
        Number::Float(d) => spec_from_dec(d.spec_mag() as int, d.spec_scale()),
    }
}

/// The largest integer that a JSON integer can exactly hold (`2^53 - 1`).
pub open spec fn json_int_max() -> int {
    9_007_199_254_740_991
}

/// Integer part of the number, if it lies within `[-(2^53-1), 2^53-1]`.
pub open spec fn spec_num_to_i64(a: Number) -> Option<i64> {
    let m = num_mant(a);
    let p = pow10(num_scale(a));
    if -json_int_max() * p <= m <= json_int_max() * p {
        let t = (abs_int(m) as int) / p;
        Some((if m < 0 { -(t as int) } else { t as int }) as i64)
    } else {
        None
    }
}

/// The number rounded half away from zero, if it fits 64 bits.
pub open spec fn spec_num_round(a: Number) -> Option<i64> {
    let p = pow10(num_scale(a));
    let t = (2 * (abs_int(num_mant(a)) as int) + p) / (2 * p);
    let r = if num_mant(a) < 0 { -(t as int) } else { t as int };
    if i64::MIN <= r <= i64::MAX {
        Some(r as i64)
    } else {
        None
    }
}

proof fn lemma_mant_bounds(n: Number)
    requires
        n matches Number::Float(d) ==> d.spec_mag() < DEC_BOUND && d.spec_scale() <= MAX_SCALE,
    ensures
        -pow10(19) < num_mant(n) < pow10(19),
        num_scale(n) <= 18,
{
    lemma_pow10_values();
}

proof fn lemma_aligned_bounds(n: Number, s: nat)
    requires
        -pow10(19) < num_mant(n) < pow10(19),
        num_scale(n) <= s <= 18,
    ensures
        -pow10(37) < num_aligned(n, s) < pow10(37),
{
    let k = (s - num_scale(n)) as nat;
    lemma_pow10_values();
    lemma_pow10_mono(k, 18);
    lemma_pow10_pos(k);
    let m = num_mant(n);
    let p = pow10(k);
    assert(-10_000_000_000_000_000_000 < m < 10_000_000_000_000_000_000);
    assert(1 <= p <= 1_000_000_000_000_000_000);
    assert(-10_000_000_000_000_000_000_000_000_000_000_000_000 < m * p < 10_000_000_000_000_000_000_000_000_000_000_000_000) by (nonlinear_arith)
        requires
            -10_000_000_000_000_000_000 < m < 10_000_000_000_000_000_000,
            1 <= p <= 1_000_000_000_000_000_000,
    ;
}

impl Number {
    /// The facts that the invariant of a decimal gives.
    fn bounds(&self)
        ensures
            -pow10(19) < num_mant(*self) < pow10(19),
            num_scale(*self) <= 18,
            self matches Number::Float(d) ==> d.spec_mag() < DEC_BOUND && d.spec_scale() <= MAX_SCALE
                && (d.spec_mag() == 0 ==> !d.spec_neg()),
    {
        if let Number::Float(d) = self {
            proof {
                use_type_invariant(d);
            }
        }
        proof {
            lemma_mant_bounds(*self);
        }
    }

    /// The scale of the number.
    fn scale_of(&self) -> (s: u32)
        ensures
            s == num_scale(*self),
            s <= 18,
    {
        match self {
            Number::Int(_) => 0,
            Number::Float(d) => d.scale(),
        }
    }

    /// The mantissa written at scale `s`.
    fn aligned(&self, s: u32) -> (r: i128)
        requires
            num_scale(*self) <= s <= 18,
        ensures
            r == num_aligned(*self, s as nat),
            -pow10(37) < r < pow10(37),
    {
        self.bounds();
        let k = s - self.scale_of();
        proof {
            lemma_aligned_bounds(*self, s as nat);
            lemma_pow10_values();
            lemma_pow10_mono(k as nat, 18);
        }
        let p = pow10_u128(k) as i128;
        let m: i128 = match self {
            Number::Int(i) => *i as i128,
            Number::Float(d) => {
                let g = d.magnitude() as i128;
                if d.is_negative() {
                    -g
                } else {
                    g
                }
            },
        };
        assert(m == num_mant(*self));
        assert(m * p == num_aligned(*self, s as nat));
        m * p
    }

    /// The signed mantissa.
    fn mant(&self) -> (r: i128)
        ensures
            r == num_mant(*self),
            -pow10(19) < r < pow10(19),
    {
        self.bounds();
        self.aligned(self.scale_of())
    }
}

/// Exec counterpart of [`spec_from_dec`].
fn from_dec(m: i128, s: u32) -> (r: Option<Number>)
    requires
        -pow10(38) < m < pow10(38),
    ensures
        r == spec_from_dec(m as int, s as nat),
{
    proof {
        lemma_pow10_values();
    }
    let neg = m < 0;
    let mag: u128 = if neg {
        (-m) as u128
    } else {
        m as u128
    };
    match fit(neg, mag, s) {
        Some(d) => Some(Number::Float(d)),
        None => None,
    }
}

/// Exec counterpart of [`spec_from_int`].
fn from_int(m: i128) -> (r: Option<Number>)
    requires
        -pow10(38) < m < pow10(38),
    ensures
        r == spec_from_int(m as int),
{
    if i64::MIN as i128 <= m && m <= i64::MAX as i128 {
        Some(Number::Int(m as i64))
    } else {
        from_dec(m, 0)
    }
}

/// The decimal `±mag / 10^scale`, reduced into range.
pub fn fit_number(neg: bool, mag: u128, scale: u32) -> (r: Option<Number>)
    ensures
        r == (match spec_fit(neg, mag as nat, scale as nat) {
            Some(d) => Some(Number::Float(d)),
            None => None,
        }),
{
    match fit(neg, mag, scale) {
        Some(d) => Some(Number::Float(d)),
        None => None,
    }
}

/// The quotient `(n * 10^k) / d` of a long division.
pub open spec fn long_q(n: nat, d: nat, k: nat) -> nat {
    ((n * pow10(k)) as nat / d) as nat
}

/// The remainder `(n * 10^k) % d` of a long division.
pub open spec fn long_r(n: nat, d: nat, k: nat) -> nat {
    ((n * pow10(k)) as nat % d) as nat
}

proof fn lemma_long_step(n: nat, d: nat, k: nat)
    requires
        d > 0,
    ensures
        long_q(n, d, k + 1) == long_q(n, d, k) * 10 + (long_r(n, d, k) * 10) / d,
        long_r(n, d, k + 1) == (long_r(n, d, k) * 10) % d,
        long_r(n, d, k) < d,
        (long_r(n, d, k) * 10) / d < 10,
{
    let x = n * pow10(k);
    let q = long_q(n, d, k) as int;
    let r = long_r(n, d, k) as int;
    lemma_pow10_pos(k);
    assert(x >= 0) by (nonlinear_arith)
        requires
            x == n * pow10(k),
            n >= 0,
            pow10(k) >= 1,
    ;
    vstd::arithmetic::div_mod::lemma_fundamental_div_mod(x, d as int);
    vstd::arithmetic::div_mod::lemma_mod_bound(x, d as int);
    assert(x == d * q + r);
    assert(0 <= r < d);
    assert(n * pow10(k + 1) == x * 10) by (nonlinear_arith)
        requires
            x == n * pow10(k),
            pow10(k + 1) == 10 * pow10(k),
    ;
    let q2 = (r * 10) / (d as int);
    let r2 = (r * 10) % (d as int);
    vstd::arithmetic::div_mod::lemma_fundamental_div_mod(r * 10, d as int);
    vstd::arithmetic::div_mod::lemma_mod_bound(r * 10, d as int);
    assert(x * 10 == d * (q * 10 + q2) + r2) by (nonlinear_arith)
        requires
            x == d * q + r,
            r * 10 == d * q2 + r2,
    ;
    vstd::arithmetic::div_mod::lemma_fundamental_div_mod_converse(x * 10, d as int, q * 10 + q2, r2);
    assert(q2 < 10) by (nonlinear_arith)
        requires
            r * 10 == d * q2 + r2,
            0 <= r2,
            0 <= r < d,
    ;
    assert(q2 >= 0) by (nonlinear_arith)
        requires
            r * 10 == d * q2 + r2,
            r2 < d,
            0 <= r,
            d > 0,
    ;
}

proof fn lemma_long_mono(n: nat, d: nat, i: nat, j: nat)
    requires
        d > 0,
        i <= j,
    ensures
        long_q(n, d, i) <= long_q(n, d, j),
    decreases j,
{
    if i < j {
        lemma_long_mono(n, d, i, (j - 1) as nat);
        lemma_long_step(n, d, (j - 1) as nat);
    }
}

proof fn lemma_long_fit(neg: bool, n: nat, d: nat, k: nat, j: nat)
    requires
        d > 0,
        k <= j <= MAX_SCALE,
        long_q(n, d, k) < DEC_BOUND,
        k < j ==> long_q(n, d, k + 1) >= DEC_BOUND,
    ensures
        spec_fit(neg, long_q(n, d, j), j) == spec_fit(neg, long_q(n, d, k), k),
        spec_fit(neg, long_q(n, d, k), k) == Some(
            Decimal { neg: neg && long_q(n, d, k) != 0, mag: long_q(n, d, k) as u64, scale: k as u32 },
        ),
    decreases j,
{
    if k < j {
        lemma_long_mono(n, d, k + 1, j);
        lemma_long_step(n, d, (j - 1) as nat);
        lemma_long_fit(neg, n, d, k, (j - 1) as nat);
    }
}

proof fn lemma_long_none(neg: bool, n: nat, d: nat, j: nat)
    requires
        d > 0,
        j <= MAX_SCALE,
        long_q(n, d, 0) >= DEC_BOUND,
    ensures
        spec_fit(neg, long_q(n, d, j), j) is None,
    decreases j,
{
    lemma_long_mono(n, d, 0, j);
    if j > 0 {
        lemma_long_step(n, d, (j - 1) as nat);
        lemma_long_none(neg, n, d, (j - 1) as nat);
    }
}

/// Truncated long division `(n * 10^18) / d`, reduced into range.
fn long_div(neg: bool, n: u128, d: u128) -> (r: Option<Decimal>)
    requires
        d > 0,
        n < pow10(37),
        d < pow10(37),
    ensures
        r == spec_fit(neg, long_q(n as nat, d as nat, 18), 18),
{
    proof {
        lemma_pow10_values();
        assert(long_q(n as nat, d as nat, 0) == n / d);
        assert(long_r(n as nat, d as nat, 0) == n % d);
    }
    let mut q = n / d;
    let mut r = n % d;
    if q >= DEC_BOUND as u128 {
        proof {
            lemma_long_none(neg, n as nat, d as nat, 18);
        }
        return None;
    }
    let mut k: u32 = 0;
    while k < MAX_SCALE
        invariant_except_break
            k <= MAX_SCALE,
            d > 0,
            d < pow10(37),
            pow10(37) == 10_000_000_000_000_000_000_000_000_000_000_000_000,
            q == long_q(n as nat, d as nat, k as nat),
            r == long_r(n as nat, d as nat, k as nat),
            q < DEC_BOUND,
        ensures
            k <= MAX_SCALE,
            q == long_q(n as nat, d as nat, k as nat),
            q < DEC_BOUND,
            k < MAX_SCALE ==> long_q(n as nat, d as nat, (k + 1) as nat) >= DEC_BOUND,
        decreases MAX_SCALE - k,
    {
        proof {
            lemma_long_step(n as nat, d as nat, k as nat);
        }
        let q2 = q * 10 + (r * 10) / d;
        if q2 >= DEC_BOUND as u128 {
            break;
        }
        r = (r * 10) % d;
        q = q2;
        k = k + 1;
    }
    proof {
        lemma_long_fit(neg, n as nat, d as nat, k as nat, 18);
    }
    Some(Decimal { neg: neg && q != 0, mag: q as u64, scale: k })
}

proof fn lemma_neg_div(mag: int, p: int)
    requires
        mag >= 0,
        p > 0,
    ensures
        (-mag) / p == -((mag + p - 1) / p),
{
    let q = (mag + p - 1) / p;
    let t = (mag + p - 1) % p;
    vstd::arithmetic::div_mod::lemma_fundamental_div_mod(mag + p - 1, p);
    vstd::arithmetic::div_mod::lemma_mod_bound(mag + p - 1, p);
    assert(mag + p - 1 == p * q + t);
    let r = -mag + q * p;
    assert(0 <= r < p) by (nonlinear_arith)
        requires
            mag + p - 1 == p * q + t,
            0 <= t < p,
            r == -mag + q * p,
    ;
    assert(-mag == p * (-q) + r) by (nonlinear_arith)
        requires
            r == -mag + q * p,
    ;
    vstd::arithmetic::div_mod::lemma_fundamental_div_mod_converse(-mag, p, -q, r);
}


/// An arithmetic result, with a result out of range turned into an error.
pub open spec fn in_range(o: Option<Number>) -> Result<Number, EvalError> {
    match o {
        Some(n) => Ok(n),
        None => Err(EvalError::NumericOutOfRange),
    }
}

/// Extension methods for numbers.
pub trait NumberExt: Sized {
    /// Numeric equality.
    fn equal(&self, other: &Self) -> bool;

    /// Numeric order.
    fn less_than(&self, other: &Self) -> bool;

    /// Negation.
    fn neg(&self) -> Self;

    /// Addition.
    fn add(&self, other: &Self) -> Result<Self, EvalError>;

    /// Subtraction.
    fn sub(&self, other: &Self) -> Result<Self, EvalError>;

    /// Multiplication.
    fn mul(&self, other: &Self) -> Result<Self, EvalError>;

    /// Division.
    fn div(&self, other: &Self) -> Result<Self, EvalError>;

    /// Remainder.
    fn rem(&self, other: &Self) -> Result<Self, EvalError>;

    /// The smallest integer not less than the number.
    fn ceil(&self) -> Self;

    /// The largest integer not greater than the number.
    fn floor(&self) -> Self;

    /// Absolute value.
    fn abs(&self) -> Self;

    /// Converts to a JSON integer if possible; fractions are truncated.
    fn to_i64(&self) -> Option<i64>;
}

proof fn lemma_sign_aligned(n: Number, s: nat)
    requires
        num_scale(n) <= s,
    ensures
        (num_aligned(n, s) < 0) == (num_mant(n) < 0),
        (num_aligned(n, s) == 0) == (num_mant(n) == 0),
{
    let k = (s - num_scale(n)) as nat;
    lemma_pow10_pos(k);
    let m = num_mant(n);
    let p = pow10(k);
    assert((m * p < 0) == (m < 0) && (m * p == 0) == (m == 0)) by (nonlinear_arith)
        requires
            p >= 1,
    ;
}

impl NumberExt for Number {
    fn equal(&self, other: &Number) -> (b: bool)
        ensures
            b == num_equal(*self, *other),
    {
        let sa = self.scale_of();
        let sb = other.scale_of();
        let s = if sa >= sb {
            sa
        } else {
            sb
        };
        self.aligned(s) == other.aligned(s)
    }

    fn less_than(&self, other: &Number) -> (b: bool)
        ensures
            b == num_less(*self, *other),
    {
        let sa = self.scale_of();
        let sb = other.scale_of();
        let s = if sa >= sb {
            sa
        } else {
            sb
        };
        self.aligned(s) < other.aligned(s)
    }

    fn neg(&self) -> (r: Number)
        ensures
            spec_num_neg(*self) == Some(r),
    {
        proof {
            lemma_pow10_values();
        }
        let m = self.mant();
        let o = match self {
            Number::Int(_) => from_int(-m),
            Number::Float(d) => from_dec(-m, d.scale()),
        };
        self.bounds();
        proof {
            reveal_with_fuel(spec_fit, 2);
        }
        match o {
            Some(n) => n,
            None => {
                assert(false);
                Number::Int(0)
            },
        }
    }

    fn add(&self, other: &Number) -> (r: Result<Number, EvalError>)
        ensures
            r == in_range(spec_num_add(*self, *other)),
    {
        proof {
            lemma_pow10_values();
        }
        let o = match (self, other) {
            (Number::Int(x), Number::Int(y)) => from_int(*x as i128 + *y as i128),
            _ => {
                let sa = self.scale_of();
                let sb = other.scale_of();
                let s = if sa >= sb {
                    sa
                } else {
                    sb
                };
                from_dec(self.aligned(s) + other.aligned(s), s)
            },
        };
        match o {
            Some(n) => Ok(n),
            None => Err(EvalError::NumericOutOfRange),
        }
    }

    fn sub(&self, other: &Number) -> (r: Result<Number, EvalError>)
        ensures
            r == in_range(spec_num_sub(*self, *other)),
    {
        proof {
            lemma_pow10_values();
        }
        let o = match (self, other) {
            (Number::Int(x), Number::Int(y)) => from_int(*x as i128 - *y as i128),
            _ => {
                let sa = self.scale_of();
                let sb = other.scale_of();
                let s = if sa >= sb {
                    sa
                } else {
                    sb
                };
                from_dec(self.aligned(s) - other.aligned(s), s)
            },
        };
        match o {
            Some(n) => Ok(n),
            None => Err(EvalError::NumericOutOfRange),
        }
    }

    fn mul(&self, other: &Number) -> (r: Result<Number, EvalError>)
        ensures
            r == in_range(spec_num_mul(*self, *other)),
    {
        proof {
            lemma_pow10_values();
        }
        let a = self.mant();
        let b = other.mant();
        assert(-pow10(38) < a * b < pow10(38)) by (nonlinear_arith)
            requires
                -10_000_000_000_000_000_000 < a < 10_000_000_000_000_000_000,
                -10_000_000_000_000_000_000 < b < 10_000_000_000_000_000_000,
                pow10(38) == 100_000_000_000_000_000_000_000_000_000_000_000_000,
        ;
        let o = match (self, other) {
            (Number::Int(_), Number::Int(_)) => from_int(a * b),
            _ => from_dec(a * b, self.scale_of() + other.scale_of()),
        };
        match o {
            Some(n) => Ok(n),
            None => Err(EvalError::NumericOutOfRange),
        }
    }

    fn div(&self, other: &Number) -> (r: Result<Number, EvalError>)
        ensures
            r == (if num_is_zero(*other) {
                Err(EvalError::DivisionByZero)
            } else {
                in_range(spec_num_div(*self, *other))
            }),
    {
        proof {
            lemma_pow10_values();
        }
        let sa = self.scale_of();
        let sb = other.scale_of();
        let s = if sa >= sb {
            sa
        } else {
            sb
        };
        let a = self.aligned(s);
        let b = other.aligned(s);
        proof {
            lemma_sign_aligned(*self, s as nat);
            lemma_sign_aligned(*other, s as nat);
        }
        if b == 0 {
            return Err(EvalError::DivisionByZero);
        }
        let neg = (a < 0) != (b < 0);
        let ua: u128 = if a < 0 {
            (-a) as u128
        } else {
            a as u128
        };
        let ub: u128 = if b < 0 {
            (-b) as u128
        } else {
            b as u128
        };
        match long_div(neg, ua, ub) {
            Some(d) => Ok(Number::Float(d)),
            None => Err(EvalError::NumericOutOfRange),
        }
    }

    fn rem(&self, other: &Number) -> (r: Result<Number, EvalError>)
        ensures
            r == (if num_is_zero(*other) {
                Err(EvalError::DivisionByZero)
            } else {
                in_range(spec_num_rem(*self, *other))
            }),
    {
        proof {
            lemma_pow10_values();
        }
        let sa = self.scale_of();
        let sb = other.scale_of();
        let s = if sa >= sb {
            sa
        } else {
            sb
        };
        let a = self.aligned(s);
        let b = other.aligned(s);
        proof {
            lemma_sign_aligned(*self, s as nat);
            lemma_sign_aligned(*other, s as nat);
        }
        if b == 0 {
            return Err(EvalError::DivisionByZero);
        }
        let ua: u128 = if a < 0 {
            (-a) as u128
        } else {
            a as u128
        };
        let ub: u128 = if b < 0 {
            (-b) as u128
        } else {
            b as u128
        };
        let r = ua % ub;
        let m: i128 = if a < 0 {
            -(r as i128)
        } else {
            r as i128
        };
        let o = match (self, other) {
            (Number::Int(_), Number::Int(_)) => from_int(m),
            _ => from_dec(m, s),
        };
        match o {
            Some(n) => Ok(n),
            None => Err(EvalError::NumericOutOfRange),
        }
    }

    fn ceil(&self) -> (r: Number)
        ensures
            r == spec_num_ceil(*self),
    {
        match self {
            Number::Int(_) => *self,
            Number::Float(d) => Number::Int(saturate_i128(ceil_mag(d.is_negative(), d.magnitude(), d.scale()))),
        }
    }

    fn floor(&self) -> (r: Number)
        ensures
            r == spec_num_floor(*self),
    {
        match self {
            Number::Int(_) => *self,
            Number::Float(d) => Number::Int(saturate_i128(floor_mag(d.is_negative(), d.magnitude(), d.scale()))),
        }
    }

    fn abs(&self) -> (r: Number)
        ensures
            spec_num_abs(*self) == Some(r),
    {
        proof {
            lemma_pow10_values();
            reveal_with_fuel(spec_fit, 2);
        }
        self.bounds();
        let o = match self {
            Number::Int(i) => {
                let m = *i as i128;
                from_int(if m < 0 {
                    -m
                } else {
                    m
                })
            },
            Number::Float(d) => from_dec(d.magnitude() as i128, d.scale()),
        };
        match o {
            Some(n) => n,
            None => {
                assert(false);
                Number::Int(0)
            },
        }
    }

    fn to_i64(&self) -> (r: Option<i64>)
        ensures
            r == spec_num_to_i64(*self),
    {
        self.bounds();
        proof {
            lemma_pow10_values();
            lemma_pow10_mono(num_scale(*self), 18);
            lemma_pow10_pos(num_scale(*self));
        }
        let m = self.mant();
        let p = pow10_u128(self.scale_of()) as i128;
        let lim: i128 = 9_007_199_254_740_991;
        assert(-pow10(37) < lim * p < pow10(37)) by (nonlinear_arith)
            requires
                lim == 9_007_199_254_740_991,
                1 <= p <= 1_000_000_000_000_000_000,
                pow10(37) == 10_000_000_000_000_000_000_000_000_000_000_000_000,
        ;
        if -lim * p <= m && m <= lim * p {
            let um: i128 = if m < 0 {
                -m
            } else {
                m
            };
            let t = um / p;
            assert(t <= lim) by (nonlinear_arith)
                requires
                    t == um / p,
                    0 <= um <= lim * p,
                    p >= 1,
            ;
            Some(
                if m < 0 {
                    -t
                } else {
                    t
                } as i64,
            )
        } else {
            None
        }
    }
}

/// Clamps into the 64-bit range.
fn saturate_i128(m: i128) -> (r: i64)
    ensures
        r == saturate(m as int),
{
    if m < i64::MIN as i128 {
        i64::MIN
    } else if m > i64::MAX as i128 {
        i64::MAX
    } else {
        m as i64
    }
}

/// Floor of a signed decimal.
fn floor_mag(neg: bool, mag: u64, scale: u32) -> (r: i128)
    requires
        scale <= 18,
        mag < DEC_BOUND,
    ensures
        r == floor_div(if neg { -(mag as int) } else { mag as int }, scale as nat),
{
    proof {
        lemma_pow10_values();
        lemma_pow10_mono(scale as nat, 18);
        lemma_pow10_pos(scale as nat);
    }
    let p = pow10_u128(scale);
    let m = mag as u128;
    if !neg {
        (m / p) as i128
    } else {
        proof {
            lemma_neg_div(mag as int, p as int);
        }
        let q = (m + p - 1) / p;
        assert(q <= m + p);
        -(q as i128)
    }
}

/// Ceiling of a signed decimal.
fn ceil_mag(neg: bool, mag: u64, scale: u32) -> (r: i128)
    requires
        scale <= 18,
        mag < DEC_BOUND,
    ensures
        r == ceil_div(if neg { -(mag as int) } else { mag as int }, scale as nat),
{
    proof {
        lemma_pow10_values();
        lemma_pow10_mono(scale as nat, 18);
        lemma_pow10_pos(scale as nat);
    }
    let p = pow10_u128(scale);
    let m = mag as u128;
    if neg {
        -((m / p) as i128)
    } else {
        proof {
            lemma_neg_div(mag as int, p as int);
        }
        let q = (m + p - 1) / p;
        assert(q <= m + p);
        q as i128
    }
}

/// The number rounded half away from zero, if it fits 64 bits.
pub fn round_to_i64(n: &Number) -> (r: Option<i64>)
    ensures
        r == spec_num_round(*n),
{
    n.bounds();
    proof {
        lemma_pow10_values();
        lemma_pow10_mono(num_scale(*n), 18);
        lemma_pow10_pos(num_scale(*n));
    }
    let m = n.mant();
    let p = pow10_u128(n.scale_of());
    let um: u128 = if m < 0 {
        (-m) as u128
    } else {
        m as u128
    };
    let t = (2 * um + p) / (2 * p);
    assert(t <= 2 * um + p);
    let r: i128 = if m < 0 {
        -(t as i128)
    } else {
        t as i128
    };
    if i64::MIN as i128 <= r && r <= i64::MAX as i128 {
        Some(r as i64)
    } else {
        None
    }
}


/// Addition and multiplication of numbers are commutative.
pub proof fn law_add_mul_commutative(a: Number, b: Number)
    ensures
        spec_num_add(a, b) == spec_num_add(b, a),
        spec_num_mul(a, b) == spec_num_mul(b, a),
{
    let x = num_mant(a);
    let y = num_mant(b);
    assert(x * y == y * x) by (nonlinear_arith);
    assert(num_scale(a) + num_scale(b) == num_scale(b) + num_scale(a));
}

proof fn lemma_floor_le_ceil_div(m: int, s: nat)
    ensures
        floor_div(m, s) <= ceil_div(m, s) <= floor_div(m, s) + 1,
{
    lemma_pow10_pos(s);
    let p = pow10(s);
    let q1 = m / p;
    let r1 = m % p;
    let q3 = (-m) / p;
    let r3 = (-m) % p;
    vstd::arithmetic::div_mod::lemma_fundamental_div_mod(m, p);
    vstd::arithmetic::div_mod::lemma_fundamental_div_mod(-m, p);
    vstd::arithmetic::div_mod::lemma_mod_bound(m, p);
    vstd::arithmetic::div_mod::lemma_mod_bound(-m, p);
    assert(q1 + q3 <= 0 && q1 + q3 >= -1) by (nonlinear_arith)
        requires
            p >= 1,
            m == p * q1 + r1,
            -m == p * q3 + r3,
            0 <= r1 < p,
            0 <= r3 < p,
    ;
}

/// The floor of a number is never above its ceiling, and the ceiling is at most one more.
pub proof fn law_floor_le_ceil(a: Number)
    ensures
        spec_num_floor(a) matches Number::Int(f) && spec_num_ceil(a) matches Number::Int(c) ==> f <= c <= f as int + 1
            || (f == i64::MAX && c == i64::MAX),
        a is Int ==> spec_num_floor(a) == a && spec_num_ceil(a) == a,
{
    match a {
        Number::Int(_) => {},
        Number::Float(d) => {
            lemma_floor_le_ceil_div(d.spec_mant(), d.spec_scale());
        },
    }
}

} // verus!
