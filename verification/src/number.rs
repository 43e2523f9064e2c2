//! Numbers the renderer reads as floating point.
//!
//! A [`Scalar`] keeps what determines a single-precision number exactly, so
//! that parsing, defaults and property bindings stay free of rounding: the
//! number itself is only computed where it is drawn with.
use vstd::prelude::*;

verus! {

/// A single-precision number, by what determines it.
#[derive(Debug)]
pub enum Scalar {
    /// The single with this bit pattern.
    Single(u32),
    /// The double with this bit pattern, narrowed to single precision.
    Double(u64),
    /// The single nearest to a decimal literal; zero for the empty text.
    Text(String),
    /// The double nearest to a decimal literal, narrowed to single precision;
    /// zero for the empty text, and zero for a literal that is out of the range
    /// of doubles without naming an infinity.
    WideText(String),
    /// The single nearest to an integer.
    Whole(i64),
    /// The double nearest to an integer, narrowed to single precision.
    WideWhole(i128),
    /// The single nearest to an integer, divided by 255 in single precision.
    Channel(i64),
}

/// What a [`Scalar`] holds.
pub enum ScalarView {
    /// The single with this bit pattern.
    Single(u32),
    /// The double with this bit pattern, narrowed.
    Double(u64),
    /// The single nearest to a decimal literal.
    Text(Seq<char>),
    /// The double nearest to a decimal literal, narrowed.
    WideText(Seq<char>),
    /// The single nearest to an integer.
    Whole(i64),
    /// The double nearest to an integer, narrowed.
    WideWhole(i128),
    /// An integer over 255.
    Channel(i64),
}

impl View for Scalar {
    type V = ScalarView;

    open spec fn view(&self) -> ScalarView {
        match self {
            Scalar::Single(b) => ScalarView::Single(*b),
            Scalar::Double(b) => ScalarView::Double(*b),
            Scalar::Text(t) => ScalarView::Text(t@),
            Scalar::WideText(t) => ScalarView::WideText(t@),
            Scalar::Whole(i) => ScalarView::Whole(*i),
            Scalar::WideWhole(i) => ScalarView::WideWhole(*i),
            Scalar::Channel(i) => ScalarView::Channel(*i),
        }
    }
}

/// The views of a list of numbers.
pub open spec fn scalars(v: Seq<Scalar>) -> Seq<ScalarView> {
    Seq::new(v.len(), |i: int| v[i]@)
}

impl Scalar {
    /// An equal number.
    pub fn copy(&self) -> (r: Scalar)
        ensures
            r@ == self@,
    {
        match self {
            Scalar::Single(b) => Scalar::Single(*b),
            Scalar::Double(b) => Scalar::Double(*b),
            Scalar::Text(t) => Scalar::Text(t.clone()),
            Scalar::WideText(t) => Scalar::WideText(t.clone()),
            Scalar::Whole(i) => Scalar::Whole(*i),
            Scalar::WideWhole(i) => Scalar::WideWhole(*i),
            Scalar::Channel(i) => Scalar::Channel(*i),
        }
    }
}

/// The whole part of `m * 2^x`.
pub open spec fn whole_part(m: nat, x: int) -> nat {
    if x >= 0 {
        m * vstd::arithmetic::power2::pow2(x as nat)
    } else {
        m / vstd::arithmetic::power2::pow2((-x) as nat)
    }
}

/// The `i64` nearest to `sign * whole`.
pub open spec fn clamped(negative: bool, whole: nat) -> i64 {
    if negative {
        if whole >= 0x8000_0000_0000_0000 {
            i64::MIN
        } else {
            (-(whole as int)) as i64
        }
    } else {
        if whole >= 0x8000_0000_0000_0000 {
            i64::MAX
        } else {
            whole as i64
        }
    }
}

/// A double is zero, of either sign.
pub open spec fn double_zero(bits: u64) -> bool {
    bits % 0x8000_0000_0000_0000 == 0
}

/// The exponent field of a double.
pub open spec fn double_exponent(bits: u64) -> int {
    (bits as int / 0x10_0000_0000_0000) % 0x800
}

/// The fraction field of a double.
pub open spec fn double_fraction(bits: u64) -> nat {
    (bits % 0x10_0000_0000_0000) as nat
}

/// A double cut off to an `i64`: towards zero, to the nearest bound when out
/// of range, and zero when it is no number.
pub open spec fn double_truncated(bits: u64) -> i64 {
    let negative = bits >= 0x8000_0000_0000_0000;
    let e = double_exponent(bits);
    let f = double_fraction(bits);
    if e == 0x7ff {
        if f != 0 {
            0
        } else if negative {
            i64::MIN
        } else {
            i64::MAX
        }
    } else if e == 0 {
        clamped(negative, whole_part(f, -1074))
    } else {
        clamped(negative, whole_part(f + 0x10_0000_0000_0000, e - 1075))
    }
}

/// A single is zero, of either sign.
pub open spec fn single_zero(bits: u32) -> bool {
    bits % 0x8000_0000 == 0
}

/// The exponent field of a single.
pub open spec fn single_exponent(bits: u32) -> int {
    (bits as int / 0x80_0000) % 0x100
}

/// The fraction field of a single.
pub open spec fn single_fraction(bits: u32) -> nat {
    (bits % 0x80_0000) as nat
}

/// A single cut off to an `i64`: towards zero, to the nearest bound when out
/// of range, and zero when it is no number.
pub open spec fn single_truncated(bits: u32) -> i64 {
    let negative = bits >= 0x8000_0000;
    let e = single_exponent(bits);
    let f = single_fraction(bits);
    if e == 0xff {
        if f != 0 {
            0
        } else if negative {
            i64::MIN
        } else {
            i64::MAX
        }
    } else if e == 0 {
        clamped(negative, whole_part(f, -149))
    } else {
        clamped(negative, whole_part(f + 0x80_0000, e - 150))
    }
}

/// The whole part of `m * 2^x`, capped at `2^63`.
fn capped_whole(m: u64, x: i32) -> (w: u64)
    requires
        -2000 <= x <= 2000,
    ensures
        w <= 0x8000_0000_0000_0000,
        w == 0x8000_0000_0000_0000 <==> whole_part(m as nat, x as int) >= 0x8000_0000_0000_0000,
        w < 0x8000_0000_0000_0000 ==> w == whole_part(m as nat, x as int),
{
    proof {
        vstd::arithmetic::power2::lemma2_to64();
    }
    let mut w: u64 = m;
    let mut i: i32 = 0;
    if x >= 0 {
        assert(w == m as nat * vstd::arithmetic::power2::pow2(0)) by {
            assert(m as nat * 1 == m);
        }
        while i < x && w < 0x8000_0000_0000_0000
            invariant
                0 <= i <= x,
                x <= 2000,
                w as nat == m as nat * vstd::arithmetic::power2::pow2(i as nat),
            decreases x - i,
        {
            proof {
                vstd::arithmetic::power2::lemma_pow2_unfold((i + 1) as nat);
                assert(m as nat * (2 * vstd::arithmetic::power2::pow2(i as nat)) == 2 * (m as nat
                    * vstd::arithmetic::power2::pow2(i as nat))) by (nonlinear_arith);
            }
            w = w * 2;
            i = i + 1;
        }
        proof {
            if i < x {
                vstd::arithmetic::power2::lemma_pow2_strictly_increases(i as nat, x as nat);
                assert(m as nat * vstd::arithmetic::power2::pow2(i as nat) <= m as nat
                    * vstd::arithmetic::power2::pow2(x as nat)) by (nonlinear_arith)
                    requires
                        vstd::arithmetic::power2::pow2(i as nat) <= vstd::arithmetic::power2::pow2(
                            x as nat,
                        ),
                ;
            }
        }
        if w < 0x8000_0000_0000_0000 {
            w
        } else {
            0x8000_0000_0000_0000
        }
    } else {
        let n: i32 = -x;
        assert(w as nat == m as nat / vstd::arithmetic::power2::pow2(0)) by {
            assert(m as nat / 1 == m);
        }
        while i < n
            invariant
                0 <= i <= n,
                n == -x,
                n <= 2000,
                w as nat == m as nat / vstd::arithmetic::power2::pow2(i as nat),
            decreases n - i,
        {
            proof {
                vstd::arithmetic::power2::lemma_pow2_unfold((i + 1) as nat);
                vstd::arithmetic::power2::lemma_pow2_pos(i as nat);
                vstd::arithmetic::div_mod::lemma_div_denominator(
                    m as int,
                    vstd::arithmetic::power2::pow2(i as nat) as int,
                    2,
                );
                assert(vstd::arithmetic::power2::pow2(i as nat) * 2 == 2 * vstd::arithmetic::power2::pow2(
                    i as nat,
                ));
            }
            w = w / 2;
            i = i + 1;
        }
        if w < 0x8000_0000_0000_0000 {
            w
        } else {
            0x8000_0000_0000_0000
        }
    }
}

/// `sign * w`, brought into the range of `i64`.
fn signed(negative: bool, w: u64) -> (r: i64)
    requires
        w <= 0x8000_0000_0000_0000,
    ensures
        forall|whole: nat|
            (w == 0x8000_0000_0000_0000 && whole >= 0x8000_0000_0000_0000 || w
                < 0x8000_0000_0000_0000 && whole == w) ==> r == #[trigger] clamped(negative, whole),
{
    if w == 0x8000_0000_0000_0000 {
        if negative {
            i64::MIN
        } else {
            i64::MAX
        }
    } else if negative {
        -(w as i64)
    } else {
        w as i64
    }
}

/// Cut a double off to an `i64`.
pub fn double_to_i64(bits: u64) -> (r: i64)
    ensures
        r == double_truncated(bits),
{
    let negative = bits >= 0x8000_0000_0000_0000;
    let e: u64 = (bits / 0x10_0000_0000_0000) % 0x800;
    let f: u64 = bits % 0x10_0000_0000_0000;
    if e == 0x7ff {
        if f != 0 {
            0
        } else if negative {
            i64::MIN
        } else {
            i64::MAX
        }
    } else if e == 0 {
        let w = capped_whole(f, -1074);
        signed(negative, w)
    } else {
        let w = capped_whole(f + 0x10_0000_0000_0000, e as i32 - 1075);
        signed(negative, w)
    }
}

/// Cut a single off to an `i64`.
pub fn single_to_i64(bits: u32) -> (r: i64)
    ensures
        r == single_truncated(bits),
{
    let negative = bits >= 0x8000_0000;
    let e: u32 = (bits / 0x80_0000) % 0x100;
    let f: u32 = bits % 0x80_0000;
    if e == 0xff {
        if f != 0 {
            0
        } else if negative {
            i64::MIN
        } else {
            i64::MAX
        }
    } else if e == 0 {
        let w = capped_whole(f as u64, -149);
        signed(negative, w)
    } else {
        let w = capped_whole((f + 0x80_0000) as u64, e as i32 - 150);
        signed(negative, w)
    }
}

/// A single is cut off towards zero: without a fraction part to speak of it is
/// its significand times a power of two, negative with its sign, and brought
/// into the range; what is no number is zero.
pub proof fn law_singles_are_cut_off(bits: u32)
    requires
        bits < 0x8000_0000,
    ensures
        bits > 0x7f80_0000 ==> single_truncated(bits) == 0 && single_truncated(
            (bits + 0x8000_0000) as u32,
        ) == 0,
        bits == 0x7f80_0000 ==> single_truncated(bits) == i64::MAX && single_truncated(
            (bits + 0x8000_0000) as u32,
        ) == i64::MIN,
        0 < bits <= 0x3f7f_ffff ==> single_truncated(bits) == 0,
        bits == 0 ==> single_truncated(bits) == 0,
        bits == 0x3f80_0000 ==> single_truncated(bits) == 1,
        bits < 0x7f80_0000 && single_truncated(bits) < i64::MAX ==> single_truncated(
            (bits + 0x8000_0000) as u32,
        ) == -single_truncated(bits),
{
    let e = single_exponent(bits);
    let f = single_fraction(bits);
    let other = (bits + 0x8000_0000) as u32;
    assert(single_exponent(other) == e);
    assert(single_fraction(other) == f);
    lemma_small_whole(f, 149);
    if e > 0 && e <= 126 {
        lemma_small_whole(f + 0x80_0000, (150 - e) as nat);
    }
    if bits == 0x3f80_0000 {
        vstd::arithmetic::power2::lemma2_to64();
        assert(e == 127 && f == 0);
        assert(vstd::arithmetic::power2::pow2(23) == 0x80_0000);
        vstd::arithmetic::div_mod::lemma_div_by_self(
            vstd::arithmetic::power2::pow2(23) as int,
        );
    }
}

/// What is less than a power of two has no whole part by it.
proof fn lemma_small_whole(m: nat, n: nat)
    requires
        m < 0x100_0000,
        n >= 24,
    ensures
        whole_part(m, -(n as int)) == 0,
{
    vstd::arithmetic::power2::lemma2_to64();
    if n > 24 {
        vstd::arithmetic::power2::lemma_pow2_strictly_increases(24, n);
    }
    let p = vstd::arithmetic::power2::pow2(n);
    vstd::arithmetic::div_mod::lemma_basic_div(m as int, p as int);
}

} // verus!
