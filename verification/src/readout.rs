//! Numbers as the screens show them.
//!
//! A double is held by its bit pattern, and what is shown of one is worked out
//! from its exponent and its mantissa.

use vstd::arithmetic::power2::pow2;
use vstd::prelude::*;

use crate::text::{concat, decimal_u64, padded_u64};
#[allow(unused_imports)]
use crate::text::{decimal, padded};
use crate::ytdlp::{Double, Single};

verus! {

// ---------------------------------------------------------------------------
// Doubles and singles
// ---------------------------------------------------------------------------

/// The exponent field of a bit pattern.
pub open spec fn exponent(bits: u64) -> int {
    (bits / 0x10_0000_0000_0000) as int
}

/// The mantissa of a normal number, with its leading bit.
pub open spec fn mantissa(bits: u64) -> int {
    (bits % 0x10_0000_0000_0000) as int + 0x10_0000_0000_0000
}

/// The whole part of a number: zero where it is below one, negative or no
/// number at all, and the largest integer where it is too large to hold.
pub open spec fn whole_part(d: Double) -> u64 {
    let e = exponent(d.bits);
    if !d.positive() || e < 1023 {
        0
    } else if e >= 1087 {
        u64::MAX
    } else if e <= 1075 {
        (mantissa(d.bits) / pow2((1075 - e) as nat) as int) as u64
    } else {
        (mantissa(d.bits) * pow2((e - 1075) as nat)) as u64
    }
}

impl Double {
    /// The whole part of the number; see `whole_part`.
    pub fn whole(self) -> (r: u64)
        ensures
            r == whole_part(self),
    {
        let e: u64 = self.bits / 0x10_0000_0000_0000;
        if !self.is_positive() || e < 1023 {
            return 0;
        }
        if e >= 1087 {
            return u64::MAX;
        }
        let m: u64 = self.bits % 0x10_0000_0000_0000 + 0x10_0000_0000_0000;
        if e <= 1075 {
            let k: u64 = 1075 - e;
            proof {
                vstd::bits::lemma_u64_shr_is_div(m, k);
            }
            m >> k
        } else {
            let k: u64 = e - 1075;
            proof {
                assert(k <= 11);
                vstd::arithmetic::power2::lemma_pow2_strictly_increases(k as nat, 12);
                vstd::arithmetic::power2::lemma2_to64();
                assert(m * pow2(k as nat) <= u64::MAX) by (nonlinear_arith)
                    requires
                        m < 0x20_0000_0000_0000,
                        pow2(k as nat) <= 0x800,
                ;
                vstd::bits::lemma_u64_shl_is_mul(m, k);
            }
            m << k
        }
    }
}

/// The number limited to the range from zero to one; what is no number stays
/// so.
pub open spec fn unit(v: Single) -> Single {
    if 0x8000_0000 < v.bits <= 0xff80_0000 {
        Single { bits: 0 }
    } else if 0x3f80_0000 < v.bits <= 0x7f80_0000 {
        Single { bits: 0x3f80_0000 }
    } else {
        v
    }
}

/// Whether the number is at most zero.
pub open spec fn at_most_zero(v: Single) -> bool {
    v.bits == 0 || 0x8000_0000 <= v.bits <= 0xff80_0000
}

impl Single {
    /// The number limited to the range from zero to one.
    pub fn clamp_unit(self) -> (r: Single)
        ensures
            r == unit(self),
    {
        if 0x8000_0000 < self.bits && self.bits <= 0xff80_0000 {
            Single { bits: 0 }
        } else if 0x3f80_0000 < self.bits && self.bits <= 0x7f80_0000 {
            Single { bits: 0x3f80_0000 }
        } else {
            self
        }
    }

    /// Decides whether the number is at most zero.
    pub fn is_at_most_zero(self) -> (r: bool)
        ensures
            r == at_most_zero(self),
    {
        self.bits == 0 || (0x8000_0000 <= self.bits && self.bits <= 0xff80_0000)
    }
}

/// Whether the number is none at all.
pub open spec fn is_nan(v: Single) -> bool {
    0x7f80_0000 < v.bits < 0x8000_0000 || 0xff80_0000 < v.bits
}

/// The place of a number among the others: for two that are numbers, one is
/// below the other exactly where its rank is. Both zeros have one rank.
pub open spec fn rank(v: Single) -> int {
    if v.bits < 0x8000_0000 {
        v.bits as int
    } else {
        0x8000_0000 - v.bits
    }
}

/// Whether one number is below another. Nothing is below what is no number, nor
/// the other way round.
pub open spec fn below(a: Single, b: Single) -> bool {
    !is_nan(a) && !is_nan(b) && rank(a) < rank(b)
}

/// Whether one number is at most another.
pub open spec fn at_most(a: Single, b: Single) -> bool {
    !is_nan(a) && !is_nan(b) && rank(a) <= rank(b)
}

/// Whether two numbers are equal.
pub open spec fn equal(a: Single, b: Single) -> bool {
    !is_nan(a) && !is_nan(b) && rank(a) == rank(b)
}

/// The larger of two numbers; where one is no number, the other.
pub open spec fn larger(a: Single, b: Single) -> Single {
    if is_nan(a) {
        b
    } else if is_nan(b) || rank(b) <= rank(a) {
        a
    } else {
        b
    }
}

/// The smaller of two numbers; where one is no number, the other.
pub open spec fn smaller(a: Single, b: Single) -> Single {
    if is_nan(a) {
        b
    } else if is_nan(b) || rank(a) <= rank(b) {
        a
    } else {
        b
    }
}

impl Single {
    /// Decides whether the number is none at all.
    pub fn not_a_number(self) -> (r: bool)
        ensures
            r == is_nan(self),
    {
        (0x7f80_0000 < self.bits && self.bits < 0x8000_0000) || 0xff80_0000 < self.bits
    }

    fn place(self) -> (r: i64)
        ensures
            r == rank(self),
    {
        if self.bits < 0x8000_0000 {
            self.bits as i64
        } else {
            0x8000_0000 - self.bits as i64
        }
    }

    /// Decides whether the number is below another.
    pub fn is_below(self, other: Single) -> (r: bool)
        ensures
            r == below(self, other),
    {
        !self.not_a_number() && !other.not_a_number() && self.place() < other.place()
    }

    /// Decides whether the number is at most another.
    pub fn is_at_most(self, other: Single) -> (r: bool)
        ensures
            r == at_most(self, other),
    {
        !self.not_a_number() && !other.not_a_number() && self.place() <= other.place()
    }

    /// Decides whether two numbers are equal.
    pub fn is_equal(self, other: Single) -> (r: bool)
        ensures
            r == equal(self, other),
    {
        !self.not_a_number() && !other.not_a_number() && self.place() == other.place()
    }

    /// The larger of two numbers.
    pub fn or_larger(self, other: Single) -> (r: Single)
        ensures
            r == larger(self, other),
    {
        if self.not_a_number() {
            other
        } else if other.not_a_number() || other.place() <= self.place() {
            self
        } else {
            other
        }
    }

    /// The smaller of two numbers.
    pub fn or_smaller(self, other: Single) -> (r: Single)
        ensures
            r == smaller(self, other),
    {
        if self.not_a_number() {
            other
        } else if other.not_a_number() || self.place() <= other.place() {
            self
        } else {
            other
        }
    }
}

/// Numbers are totally ordered.
pub proof fn lemma_numbers_are_ordered(a: Single, b: Single, c: Single)
    requires
        !is_nan(a),
        !is_nan(b),
        !is_nan(c),
    ensures
        below(a, b) || equal(a, b) || below(b, a),
        !(below(a, b) && below(b, a)),
        at_most(a, b) == !below(b, a),
        at_most(a, b) && at_most(b, c) ==> at_most(a, c),
{
}

// ---------------------------------------------------------------------------
// Durations
// ---------------------------------------------------------------------------

/// Seconds as `m:ss`, or as `h:mm:ss` from an hour on.
pub open spec fn clock_text(secs: u64) -> Seq<char> {
    if secs >= 3600 {
        decimal((secs / 3600) as nat) + ":"@ + padded(((secs % 3600) / 60) as nat, 2) + ":"@
            + padded((secs % 60) as nat, 2)
    } else {
        decimal((secs / 60) as nat) + ":"@ + padded((secs % 60) as nat, 2)
    }
}

/// A length in seconds as the screens show it; what is negative shows as zero.
pub fn human_duration(secs: Double) -> (r: String)
    ensures
        r@ == clock_text(whole_part(secs)),
{
    let n: u64 = secs.whole();
    if n >= 3600 {
        let hours: String = concat(decimal_u64(n / 3600).as_str(), ":");
        let minutes: String = concat(padded_u64((n % 3600) / 60, 2).as_str(), ":");
        let head: String = concat(hours.as_str(), minutes.as_str());
        let r: String = concat(head.as_str(), padded_u64(n % 60, 2).as_str());
        assert(r@ =~= clock_text(n));
        r
    } else {
        let minutes: String = concat(decimal_u64(n / 60).as_str(), ":");
        concat(minutes.as_str(), padded_u64(n % 60, 2).as_str())
    }
}

// ---------------------------------------------------------------------------
// Sizes
// ---------------------------------------------------------------------------

/// The bits of 1024, as a double.
pub const KIBI: u64 = 0x4090_0000_0000_0000;

/// The bits of infinity, as a double.
pub const INFINITY: u64 = 0x7ff0_0000_0000_0000;

/// Ten, in the exponent field of a double: taking it away divides by 1024.
pub const TEN_BINARY_PLACES: u64 = 0x00a0_0000_0000_0000;

/// A number divided by 1024, where it is at least that.
pub open spec fn shrunk(n: Double) -> Double {
    if n.bits == INFINITY {
        n
    } else {
        Double { bits: (n.bits - TEN_BINARY_PLACES) as u64 }
    }
}

/// Whether a number is at least 1024.
pub open spec fn is_kibi(n: Double) -> bool {
    KIBI <= n.bits <= INFINITY
}

/// The unit that a number of bytes is shown in, and the number of such units:
/// from `unit` on, the first in which it is below 1024, or the last one.
pub open spec fn in_units(n: Double, unit: nat) -> (Double, nat)
    decreases 4 - unit,
{
    if unit < 4 && is_kibi(n) {
        in_units(shrunk(n), unit + 1)
    } else {
        (n, unit)
    }
}

/// The name of a unit.
pub open spec fn unit_name(unit: nat) -> Seq<char> {
    if unit == 0 {
        "B"@
    } else if unit == 1 {
        "KB"@
    } else if unit == 2 {
        "MB"@
    } else if unit == 3 {
        "GB"@
    } else {
        "TB"@
    }
}

/// A number of bytes in the unit it is shown in, and that unit's name. The
/// number is shown with one decimal place.
pub fn byte_units(n: Double) -> (r: (Double, &'static str))
    ensures
        r.0 == in_units(n, 0).0,
        r.1@ == unit_name(in_units(n, 0).1),
        in_units(n, 0).1 <= 4,
{
    let mut v: Double = n;
    let mut i: usize = 0;
    while i < 4 && KIBI <= v.bits && v.bits <= INFINITY
        invariant
            i <= 4,
            in_units(n, 0) == in_units(v, i as nat),
        decreases 4 - i,
    {
        v = if v.bits == INFINITY {
            v
        } else {
            Double { bits: v.bits - TEN_BINARY_PLACES }
        };
        i = i + 1;
    }
    let name: &'static str = if i == 0 {
        "B"
    } else if i == 1 {
        "KB"
    } else if i == 2 {
        "MB"
    } else if i == 3 {
        "GB"
    } else {
        "TB"
    };
    (v, name)
}

/// A size below 1024 bytes shows in bytes; from there on no size shows as 1024
/// units or more, unless it is in the last unit.
pub proof fn lemma_unit_fits(n: Double, unit: nat)
    requires
        unit <= 4,
    ensures
        unit <= in_units(n, unit).1 <= 4,
        in_units(n, unit).1 < 4 ==> !is_kibi(in_units(n, unit).0),
        !is_kibi(n) ==> in_units(n, unit) == (n, unit),
    decreases 4 - unit,
{
    if unit < 4 && is_kibi(n) {
        lemma_unit_fits(shrunk(n), unit + 1);
    }
}

// ---------------------------------------------------------------------------
// What is shown
// ---------------------------------------------------------------------------

/// The whole part of a number is the largest integer not above it: of a pattern with
/// exponent `e` and mantissa `m` the number is `m` times two to the power of `e - 1075`.
/// Below one it is zero, and what does not fit is the largest there is.
pub proof fn lemma_whole_part_is_the_integer_below(d: Double)
    ensures
        ({
            let e = (d.bits / 0x10_0000_0000_0000) as int;
            let m = (d.bits % 0x10_0000_0000_0000) as int + 0x10_0000_0000_0000;
            let w = whole_part(d);
            &&& d.bits == 0 || d.bits > 0x7ff0_0000_0000_0000 ==> w == 0
            &&& d.bits < 0x3ff0_0000_0000_0000 ==> w == 0
            &&& 0x3ff0_0000_0000_0000 <= d.bits && e <= 1075 ==> w * pow2((1075 - e) as nat) <= m
                < (w + 1) * pow2((1075 - e) as nat)
            &&& 1075 < e < 1087 ==> w == m * pow2((e - 1075) as nat)
            &&& 0x43f0_0000_0000_0000 <= d.bits <= 0x7ff0_0000_0000_0000 ==> w == u64::MAX
        }),
{
    let e = (d.bits / 0x10_0000_0000_0000) as int;
    let m = (d.bits % 0x10_0000_0000_0000) as int + 0x10_0000_0000_0000;
    assert(exponent(d.bits) == e && mantissa(d.bits) == m);
    if d.positive() && 1023 <= e <= 1075 {
        let p = pow2((1075 - e) as nat) as int;
        vstd::arithmetic::power2::lemma_pow2_pos((1075 - e) as nat);
        assert(m / p * p <= m < (m / p + 1) * p && 0 <= m / p <= m) by (nonlinear_arith)
            requires
                p > 0,
                m >= 0,
        ;
    } else if d.positive() && 1075 < e < 1087 {
        let k = (e - 1075) as nat;
        let p = pow2(k) as int;
        vstd::arithmetic::power2::lemma_pow2_pos(k);
        lemma_small_powers(k);
        assert(0 <= m * p <= u64::MAX) by (nonlinear_arith)
            requires
                0 < p <= 2048,
                0 <= m < 0x20_0000_0000_0000,
        ;
    }
}

proof fn lemma_small_powers(k: nat)
    requires
        k <= 11,
    ensures
        pow2(k) <= 2048,
{
    vstd::arithmetic::power2::lemma2_to64();
    if k < 11 {
        vstd::arithmetic::power2::lemma_pow2_strictly_increases(k, 11);
    }
}

/// Limited to the range from zero to one, a number below zero is zero, one above one is
/// one, and any other, or what is no number, stays.
pub proof fn lemma_unit_range(v: Single)
    ensures
        ({
            let (zero, one) = (Single { bits: 0 }, Single { bits: 0x3f80_0000 });
            let u = unit(v);
            &&& is_nan(v) ==> u == v
            &&& below(v, zero) ==> u == zero
            &&& below(one, v) ==> u == one
            &&& at_most(zero, v) && at_most(v, one) ==> u == v
            &&& at_most_zero(v) <==> at_most(v, zero)
        }),
{
}

/// What is no number has the largest exponent and something behind it. Numbers are ordered
/// by their patterns where the sign is clear, the other way round where it is set, and
/// those with the sign come first; the two zeros are equal.
pub proof fn lemma_order_of_numbers(a: Single, b: Single)
    ensures
        is_nan(a) <==> 0x7f80_0000 < a.bits % 0x8000_0000,
        is_nan(a) || is_nan(b) ==> !below(a, b) && !at_most(a, b) && !equal(a, b),
        !is_nan(a) && !is_nan(b) ==> {
            let (na, nb) = (a.bits >= 0x8000_0000, b.bits >= 0x8000_0000);
            let (ma, mb) = (a.bits % 0x8000_0000, b.bits % 0x8000_0000);
            &&& !na && !nb ==> (below(a, b) <==> ma < mb)
            &&& na && nb ==> (below(a, b) <==> ma > mb)
            &&& na && !nb ==> (below(a, b) <==> ma > 0 || mb > 0)
            &&& !na && nb ==> !below(a, b)
            &&& equal(a, b) <==> !below(a, b) && !below(b, a)
            &&& at_most(a, b) <==> !below(b, a)
        },
{
}

/// The larger of two numbers is one of them and not below either; the smaller is one of
/// them and not above either. What is no number gives way.
pub proof fn lemma_larger_and_smaller(a: Single, b: Single)
    ensures
        ({
            let (l, s) = (larger(a, b), smaller(a, b));
            &&& l == a || l == b
            &&& s == a || s == b
            &&& is_nan(a) ==> l == b && s == b
            &&& is_nan(b) && !is_nan(a) ==> l == a && s == a
            &&& !is_nan(a) && !is_nan(b) ==> {
                &&& at_most(a, l) && at_most(b, l)
                &&& at_most(s, a) && at_most(s, b)
            }
        }),
{
}

/// A length shows as minutes and two digits of seconds, from an hour on as hours and two
/// digits of minutes and of seconds.
pub proof fn lemma_clock_shows_hours_minutes_seconds(h: nat, m: nat, s: nat)
    requires
        m < 60,
        s < 60,
        3600 * h + 60 * m + s <= u64::MAX,
    ensures
        h == 0 ==> clock_text((60 * m + s) as u64) == decimal(m) + ":"@ + padded(s, 2),
        h > 0 ==> clock_text((3600 * h + 60 * m + s) as u64) == decimal(h) + ":"@ + padded(m, 2)
            + ":"@ + padded(s, 2),
{
    let t = 3600 * h + 60 * m + s;
    assert(t / 3600 == h && t % 3600 == 60 * m + s);
    assert((60 * m + s) / 60 == m && (60 * m + s) % 60 == s);
    assert(t % 60 == s);
}

/// A size shows in the first unit in which it is below 1024, and in terabytes where there
/// is none: each unit is 1024 times the one before, which is ten in the exponent.
pub proof fn lemma_size_is_divided_by_its_unit(n: Double, k: nat)
    requires
        k <= 4,
    ensures
        ({
            let ten: int = 0x00a0_0000_0000_0000;
            let kibi: int = 0x4090_0000_0000_0000;
            &&& n.bits < kibi ==> in_units(n, 0) == (n, 0nat)
            &&& 0 < k < 4 && kibi + (k - 1) * ten <= n.bits < kibi + k * ten ==> in_units(n, 0) == (
                Double { bits: (n.bits - k * ten) as u64 },
                k,
            )
            &&& kibi + 3 * ten <= n.bits < 0x7ff0_0000_0000_0000 ==> in_units(n, 0) == (
                Double { bits: (n.bits - 4 * ten) as u64 },
                4nat,
            )
            &&& n.bits == 0x7ff0_0000_0000_0000 ==> in_units(n, 0) == (n, 4nat)
        }),
{
    reveal_with_fuel(in_units, 6);
}

/// The units by their names.
pub proof fn lemma_names_of_the_units(k: nat)
    ensures
        k == 0 ==> unit_name(k) == "B"@,
        k == 1 ==> unit_name(k) == "KB"@,
        k == 2 ==> unit_name(k) == "MB"@,
        k == 3 ==> unit_name(k) == "GB"@,
        k == 4 ==> unit_name(k) == "TB"@,
{
}

} // verus!
