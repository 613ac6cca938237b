//! Single-precision values carried by their bit patterns.
//!
//! The library orders, clamps and classifies screen coordinates; sums and
//! products of coordinates are formed by the host and handed in.
use vstd::arithmetic::power2::{lemma_pow2, lemma_pow2_unfold, pow2};
use vstd::prelude::*;

verus! {

/// Bit pattern of an infinity; any larger magnitude is not a number.
pub const INFINITE_MAGNITUDE: u32 = 0x7f80_0000;

/// Bit pattern of the gap between one and the next larger value.
pub const EPSILON_MAGNITUDE: u32 = 0x3400_0000;

/// A single-precision value.
#[derive(Clone, Copy, Debug, PartialEq, Eq, Structural)]
pub struct Scalar {
    pub bits: u32,
}

/// A pair of coordinates.
pub type Point = (Scalar, Scalar);

impl Scalar {
    /// The pattern without its sign.
    pub open spec fn magnitude(self) -> int {
        if self.bits >= 0x8000_0000 {
            self.bits - 0x8000_0000
        } else {
            self.bits as int
        }
    }

    /// Position in numeric order; both zeros share one position.
    pub open spec fn rank(self) -> int {
        if self.bits >= 0x8000_0000 {
            -self.magnitude()
        } else {
            self.magnitude()
        }
    }

    /// The value is not a number.
    pub open spec fn nan(self) -> bool {
        self.magnitude() > INFINITE_MAGNITUDE
    }

    /// The value is a number other than an infinity.
    pub open spec fn finite(self) -> bool {
        self.magnitude() < INFINITE_MAGNITUDE
    }

    /// Numeric order, false whenever a side is not a number.
    pub open spec fn below(self, other: Scalar) -> bool {
        !self.nan() && !other.nan() && self.rank() < other.rank()
    }

    /// Numeric order or equality, false whenever a side is not a number.
    pub open spec fn at_most(self, other: Scalar) -> bool {
        !self.nan() && !other.nan() && self.rank() <= other.rank()
    }

    /// The nearest value between two bounds; what is not a number stays so.
    pub open spec fn clamped(self, low: Scalar, high: Scalar) -> Scalar {
        if self.below(low) {
            low
        } else if high.below(self) {
            high
        } else {
            self
        }
    }

    /// The value itself when positive, otherwise zero.
    pub open spec fn floored(self) -> Scalar {
        if (Scalar { bits: 0 }).below(self) {
            self
        } else {
            Scalar { bits: 0 }
        }
    }

    /// The distance from zero is a number larger than the rounding gap at one.
    pub open spec fn noticeable(self) -> bool {
        !self.nan() && self.magnitude() > EPSILON_MAGNITUDE
    }

    /// Positive zero.
    pub fn zero() -> (r: Scalar)
        ensures
            r == (Scalar { bits: 0 }),
    {
        Scalar { bits: 0 }
    }

    fn unsigned(self) -> (r: u32)
        ensures
            r == self.magnitude(),
    {
        if self.bits >= 0x8000_0000 {
            self.bits - 0x8000_0000
        } else {
            self.bits
        }
    }

    pub fn is_finite(self) -> (r: bool)
        ensures
            r == self.finite(),
    {
        self.unsigned() < INFINITE_MAGNITUDE
    }

    pub fn is_nan(self) -> (r: bool)
        ensures
            r == self.nan(),
    {
        self.unsigned() > INFINITE_MAGNITUDE
    }

    /// Numeric `<`.
    pub fn less(self, other: Scalar) -> (r: bool)
        ensures
            r == self.below(other),
    {
        if self.is_nan() || other.is_nan() {
            return false;
        }
        let left: u32 = self.unsigned();
        let right: u32 = other.unsigned();
        if self.bits >= 0x8000_0000 {
            if other.bits >= 0x8000_0000 {
                right < left
            } else {
                left > 0 || right > 0
            }
        } else if other.bits >= 0x8000_0000 {
            false
        } else {
            left < right
        }
    }

    /// Numeric `clamp`.
    pub fn clamp(self, low: Scalar, high: Scalar) -> (r: Scalar)
        requires
            low.at_most(high),
        ensures
            r == self.clamped(low, high),
    {
        if self.less(low) {
            low
        } else if high.less(self) {
            high
        } else {
            self
        }
    }

    /// Numeric maximum with zero.
    pub fn floor_at_zero(self) -> (r: Scalar)
        ensures
            r == self.floored(),
    {
        if Scalar::zero().less(self) {
            self
        } else {
            Scalar::zero()
        }
    }

    /// Whether the distance from zero exceeds the rounding gap at one.
    pub fn exceeds_epsilon(self) -> (r: bool)
        ensures
            r == self.noticeable(),
    {
        !self.is_nan() && self.unsigned() > EPSILON_MAGNITUDE
    }

    /// The pattern stands for exactly this whole number.
    pub open spec fn is_whole(self, n: nat) -> bool {
        ||| n == 0 && self.bits == 0
        ||| n > 0 && self.bits < INFINITE_MAGNITUDE && n * pow2(150) == (0x80_0000 + self.bits
            % 0x80_0000) * pow2((self.bits / 0x80_0000) as nat)
    }
}

/// Clamping never leaves the bounds.
pub proof fn clamped_stays_in_bounds(value: Scalar, low: Scalar, high: Scalar)
    requires
        low.at_most(high),
        !value.nan(),
    ensures
        low.at_most(value.clamped(low, high)),
        value.clamped(low, high).at_most(high),
{
}

/// The step between neighbouring values around `n`: the smallest power of two
/// that leaves fewer than twenty-five significant bits.
pub open spec fn grain(n: nat, step: nat) -> nat
    decreases n / step,
    when step > 0
{
    if n / step < 0x100_0000 {
        step
    } else {
        proof {
            lemma_halved(n, step);
        }
        grain(n, 2 * step)
    }
}

/// Doubling the divisor shrinks a nonzero quotient.
pub proof fn lemma_halved(n: nat, step: nat)
    requires
        step > 0,
        n / step > 0,
    ensures
        n / (2 * step) < n / step,
{
    vstd::arithmetic::div_mod::lemma_div_denominator(n as int, step as int, 2);
    assert(step * 2 == 2 * step);
}

/// The whole number nearest to `n` that a single-precision value holds, ties
/// going to the even neighbour.
pub open spec fn nearest_whole(n: nat) -> nat {
    let step = grain(n, 1);
    let down = n / step;
    let rest = n % step;
    if 2 * rest > step || (2 * rest == step && down % 2 == 1) {
        (down + 1) * step
    } else {
        down * step
    }
}

/// Rounds a whole number to the nearest one that a single-precision value holds.
fn round_whole(n: u128) -> (r: u128)
    requires
        n < 0x1_0000_0000_0000_0000_0000_0000,
    ensures
        r == nearest_whole(n as nat),
        r <= 2 * n,
        whole_fits(r as nat),
{
    let mut step: u128 = 1;
    let ghost mut k: nat = 0;
    proof {
        lemma_pow2(0);
        reveal(vstd::arithmetic::power::pow);
    }
    while n / step >= 0x100_0000
        invariant
            step > 0,
            step == pow2(k),
            grain(n as nat, 1) == grain(n as nat, step as nat),
            n < 0x1_0000_0000_0000_0000_0000_0000,
            step == 1 || 0x80_0000 <= n / step,
        decreases n / step,
    {
        proof {
            lemma_halved(n as nat, step as nat);
            assert(step <= n) by (nonlinear_arith)
                requires
                    n / step >= 0x100_0000,
                    step > 0,
            ;
            assert(0x80_0000 <= n / (2 * step) as u128) by (nonlinear_arith)
                requires
                    n / step >= 0x100_0000,
                    step > 0,
            ;
            lemma_pow2_unfold(k + 1);
            k = k + 1;
        }
        step = 2 * step;
    }
    let down: u128 = n / step;
    let rest: u128 = n % step;
    proof {
        vstd::arithmetic::div_mod::lemma_fundamental_div_mod(n as int, step as int);
        assert(down * step <= n) by (nonlinear_arith)
            requires
                n == step * down + rest,
                rest >= 0,
        ;
        assert((down + 1) * step <= n + step) by (nonlinear_arith)
            requires
                n == step * down + rest,
                rest >= 0,
        ;
        if step > 1 {
            assert(step <= n) by (nonlinear_arith)
                requires
                    down >= 1,
                    down * step <= n,
            ;
        }
    }
    if 2 * rest > step || (2 * rest == step && down % 2 == 1) {
        proof {
            assert(whole_fits(((down + 1) * step) as nat)) by {
                assert(down + 1 <= 0x100_0000);
                assert((down + 1) * pow2(k) == (down + 1) * step);
            }
        }
        (down + 1) * step
    } else {
        proof {
            assert(whole_fits((down * step) as nat)) by {
                assert(down * pow2(k) == down * step);
            }
        }
        down * step
    }
}

/// A whole number with at most twenty-four significant bits.
pub open spec fn whole_fits(n: nat) -> bool {
    exists|m: nat, k: nat| m <= 0x100_0000 && n == #[trigger] (m * pow2(k))
}

/// The value holding a whole number of few significant bits.
fn encode_whole(n: u128) -> (r: Scalar)
    requires
        n < 0x1_0000_0000_0000_0000_0000_0000,
        whole_fits(n as nat),
    ensures
        r.is_whole(n as nat),
{
    if n == 0 {
        return Scalar::zero();
    }
    let mut m: u128 = n;
    let mut exponent: u32 = 150;
    proof {
        vstd::arithmetic::power2::lemma2_to64();
        assert(m * pow2(0) == m);
    }
    while m >= 0x100_0000
        invariant
            0 < m <= n < 0x1_0000_0000_0000_0000_0000_0000,
            whole_fits(m as nat),
            150 <= exponent,
            n >= 0x100_0000 ==> 0x80_0000 <= m,
            n < 0x100_0000 ==> m == n && exponent == 150,
            m * pow2((exponent - 150) as nat) <= n,
            n * pow2(150) == m * pow2(exponent as nat),
        decreases m,
    {
        proof {
            let (q, k) = choose|q: nat, k: nat|
                q <= 0x100_0000 && m == #[trigger] (q * pow2(k));
            if k == 0 {
                lemma_pow2(0);
                reveal(vstd::arithmetic::power::pow);
                assert(q * 1 == q);
                assert(m == 0x100_0000);
                assert(m / 2 == 0x80_0000 * 1);
                assert(whole_fits((m / 2) as nat)) by {
                    assert((m / 2) as nat == 0x80_0000nat * pow2(0));
                }
            } else {
                lemma_pow2_unfold(k);
                assert(m == 2 * (q * pow2((k - 1) as nat))) by (nonlinear_arith)
                    requires
                        m == q * pow2(k),
                        pow2(k) == 2 * pow2((k - 1) as nat),
                ;
                assert((m / 2) as nat == q * pow2((k - 1) as nat));
            }
            assert(m == 2 * (m / 2));
            lemma_pow2_unfold((exponent + 1) as nat);
            lemma_pow2_unfold((exponent - 149) as nat);
            assert(m * pow2(exponent as nat) == (m / 2) * pow2((exponent + 1) as nat))
                by (nonlinear_arith)
                requires
                    m == 2 * (m / 2),
                    pow2((exponent + 1) as nat) == 2 * pow2(exponent as nat),
            ;
            assert((m / 2) * pow2((exponent - 149) as nat) == m * pow2((exponent - 150) as nat))
                by (nonlinear_arith)
                requires
                    m == 2 * (m / 2),
                    pow2((exponent - 149) as nat) == 2 * pow2((exponent - 150) as nat),
            ;
            lemma_small_exponent(m as nat, (exponent - 150) as nat, n as nat);
        }
        m = m / 2;
        exponent = exponent + 1;
    }
    proof {
        lemma_small_exponent(m as nat, (exponent - 150) as nat, n as nat);
        vstd::arithmetic::power2::lemma2_to64();
        assert(m * pow2(0) == m);
        assert(n * pow2(0) == n);
    }
    while m < 0x80_0000
        invariant
            0 < m < 0x100_0000,
            exponent < 250,
            127 <= exponent,
            m < 0x80_0000 ==> exponent <= 150 && n * pow2((150 - exponent) as nat) == m,
            0 < n,
            n * pow2(150) == m * pow2(exponent as nat),
        decreases 0x100_0000 - m,
    {
        proof {
            lemma_pow2_unfold(exponent as nat);
            assert(m * pow2(exponent as nat) == (2 * m) * pow2((exponent - 1) as nat))
                by (nonlinear_arith)
                requires
                    pow2(exponent as nat) == 2 * pow2((exponent - 1) as nat),
            ;
            lemma_pow2_unfold((151 - exponent) as nat);
            assert(n * pow2((151 - exponent) as nat) == 2 * m) by (nonlinear_arith)
                requires
                    n * pow2((150 - exponent) as nat) == m,
                    pow2((151 - exponent) as nat) == 2 * pow2((150 - exponent) as nat),
            ;
            lemma_large_exponent(m as nat, exponent as nat, n as nat);
        }
        m = 2 * m;
        exponent = exponent - 1;
    }
    let fraction: u32 = (m - 0x80_0000) as u32;
    let r = Scalar { bits: exponent * 0x80_0000 + fraction };
    proof {
        assert(r.bits % 0x80_0000 == fraction);
        assert(r.bits / 0x80_0000 == exponent);
    }
    r
}

proof fn lemma_small_exponent(m: nat, k: nat, n: nat)
    requires
        m > 0,
        m * pow2(k) <= n,
        n < 0x1_0000_0000_0000_0000_0000_0000,
    ensures
        k < 96,
{
    if k >= 96 {
        vstd::arithmetic::power2::lemma_pow2_strictly_increases(95, 96);
        if k > 96 {
            vstd::arithmetic::power2::lemma_pow2_strictly_increases(96, k);
        }
        vstd::arithmetic::power2::lemma2_to64_rest();
        vstd::arithmetic::power2::lemma_pow2_adds(32, 64);
        vstd::arithmetic::power2::lemma2_to64();
        assert(pow2(96) == 0x1_0000_0000 * 0x1_0000_0000_0000_0000);
        assert(m * pow2(k) >= pow2(k)) by (nonlinear_arith)
            requires
                m > 0,
                pow2(k) >= 0,
        ;
    }
}

proof fn lemma_large_exponent(m: nat, exponent: nat, n: nat)
    requires
        m < 0x80_0000,
        n > 0,
        exponent <= 150,
        n * pow2((150 - exponent) as nat) == m,
    ensures
        exponent >= 128,
{
    if exponent < 128 {
        let k = (150 - exponent) as nat;
        vstd::arithmetic::power2::lemma2_to64();
        assert(pow2(23) == 0x80_0000);
        if k > 23 {
            vstd::arithmetic::power2::lemma_pow2_strictly_increases(23, k);
        }
        assert(n * pow2(k) >= pow2(k)) by (nonlinear_arith)
            requires
                n > 0,
                pow2(k) >= 0,
        ;
    }
}

/// At most one value holds a whole number.
pub proof fn lemma_whole_unique(a: Scalar, b: Scalar, n: nat)
    requires
        a.is_whole(n),
        b.is_whole(n),
    ensures
        a == b,
{
    vstd::arithmetic::power2::lemma_pow2_pos(150);
    if n > 0 {
        let (ea, eb) = ((a.bits / 0x80_0000) as nat, (b.bits / 0x80_0000) as nat);
        let (ma, mb) = ((0x80_0000 + a.bits % 0x80_0000) as nat, (0x80_0000 + b.bits % 0x80_0000) as nat);
        if ea < eb {
            lemma_exponents_agree(ma, ea, mb, eb);
        } else if eb < ea {
            lemma_exponents_agree(mb, eb, ma, ea);
        } else {
            vstd::arithmetic::power2::lemma_pow2_pos(ea);
            assert(ma == mb) by (nonlinear_arith)
                requires
                    ma * pow2(ea) == mb * pow2(ea),
                    pow2(ea) > 0,
            ;
        }
    }
}

proof fn lemma_exponents_agree(m: nat, e: nat, q: nat, f: nat)
    requires
        e < f,
        m < 0x100_0000,
        0x80_0000 <= q,
    ensures
        m * pow2(e) != q * pow2(f),
{
    let d = (f - e) as nat;
    vstd::arithmetic::power2::lemma_pow2_adds(d, e);
    vstd::arithmetic::power2::lemma_pow2_pos(e);
    vstd::arithmetic::power2::lemma_pow2_pos((d - 1) as nat);
    lemma_pow2_unfold(d);
    assert(q * pow2(d) >= 0x100_0000) by (nonlinear_arith)
        requires
            q >= 0x80_0000,
            pow2(d) >= 2,
    ;
    assert(m * pow2(e) != q * pow2(f)) by (nonlinear_arith)
        requires
            m < q * pow2(d),
            pow2(f) == pow2(d) * pow2(e),
            pow2(e) > 0,
    ;
}

/// The value that holds a whole number, where one does.
pub open spec fn whole(n: nat) -> Scalar {
    choose|s: Scalar| s.is_whole(n)
}

/// Where the next floating pane goes when `count` panes are already open:
/// thirty units further along both axes for each of them.
pub open spec fn stagger_offset(count: nat, base: nat) -> nat {
    nearest_whole(base + nearest_whole(30 * nearest_whole(count)))
}

/// The position of the pane opened beside `count` others.
pub open spec fn stagger_position(count: nat) -> Point {
    (whole(stagger_offset(count, 80)), whole(stagger_offset(count, 60)))
}

/// Position given to the next floating pane.
pub fn stagger(count: usize) -> (r: Point)
    ensures
        r.0.is_whole(stagger_offset(count as nat, 80)),
        r.1.is_whole(stagger_offset(count as nat, 60)),
        r == stagger_position(count as nat),
{
    let offset: u128 = round_whole(30 * round_whole(count as u128));
    let across: u128 = round_whole(80 + offset);
    let down: u128 = round_whole(60 + offset);
    let r = (encode_whole(across), encode_whole(down));
    proof {
        lemma_whole_unique(r.0, whole(across as nat), across as nat);
        lemma_whole_unique(r.1, whole(down as nat), down as nat);
    }
    r
}

/// Every small whole number has a value that holds it, which is finite and not
/// negative.
proof fn lemma_whole_exists(n: nat, m: nat, k: nat)
    requires
        n > 0,
        m == n * pow2(k),
        0 < m < 0x100_0000,
        k <= 24,
    ensures
        whole(n).is_whole(n),
    decreases 0x100_0000 - m,
{
    vstd::arithmetic::power2::lemma_pow2_adds(1, k);
    vstd::arithmetic::power2::lemma_pow2_pos(k);
    vstd::arithmetic::power2::lemma2_to64();
    if k == 24 {
        assert(n * pow2(24) >= 0x100_0000) by (nonlinear_arith)
            requires
                n >= 1,
                pow2(24) == 0x100_0000,
        ;
    } else if m < 0x80_0000 {
        assert(n * pow2(k + 1) == 2 * m) by (nonlinear_arith)
            requires
                m == n * pow2(k),
                pow2(k + 1) == 2 * pow2(k),
        ;
        lemma_whole_exists(n, 2 * m, k + 1);
    } else {
        let e = (150 - k) as nat;
        let s = Scalar { bits: (e * 0x80_0000 + (m - 0x80_0000)) as u32 };
        vstd::arithmetic::power2::lemma_pow2_adds(k, e);
        assert(m * pow2(e) == n * pow2(150)) by (nonlinear_arith)
            requires
                m == n * pow2(k),
                pow2(150) == pow2(k) * pow2(e),
        ;
        assert(s.bits / 0x80_0000 == e);
        assert(s.bits % 0x80_0000 == m - 0x80_0000);
        assert(s.is_whole(n));
    }
}

/// A small whole number is its own nearest one.
proof fn lemma_small_is_whole(n: nat)
    requires
        n < 0x100_0000,
    ensures
        nearest_whole(n) == n,
{
    assert(n / 1 == n);
    assert(n % 1 == 0);
    assert(grain(n, 1) == 1);
    assert((n / grain(n, 1)) * 1 == n);
}

/// A small number of panes is staggered on screen: the positions are finite and
/// not negative.
pub proof fn staggered_panes_are_on_screen(count: nat)
    requires
        count < 1000,
    ensures
        stagger_position(count).0.finite(),
        stagger_position(count).1.finite(),
        !stagger_position(count).0.below(Scalar { bits: 0 }),
        !stagger_position(count).1.below(Scalar { bits: 0 }),
{
    vstd::arithmetic::power2::lemma2_to64();
    lemma_small_is_whole(count);
    lemma_small_is_whole(30 * count);
    lemma_small_is_whole(80 + 30 * count);
    lemma_small_is_whole(60 + 30 * count);
    lemma_whole_exists(80 + 30 * count, 80 + 30 * count, 0);
    lemma_whole_exists(60 + 30 * count, 60 + 30 * count, 0);
}

} // verus!
