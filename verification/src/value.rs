//! Scalar, vector and color encodings shared by every scene field.
//!
//! Vectors are space-separated strings, colors come in several spellings, and
//! loosely typed scalars go through the `coerce_*` functions.
use vstd::prelude::*;

use crate::json::{decimal_int_text, Json, Number};
use crate::literal::{int_or_zero, leading_literal, strtoi};
use crate::number::{double_to_i64, Scalar, ScalarView};
use crate::text::{chars_of, contains_char, replace_char, same, slice_text, split_on};

verus! {

/// A 2-component vector (`"x y"`), stored `[x, y]`.
pub type Vec2 = [Scalar; 2];

/// A 3-component vector (`"x y z"`), stored `[x, y, z]`.
pub type Vec3 = [Scalar; 3];

/// An RGBA color, each channel nominally from 0 to 1.
pub type Color = [Scalar; 4];

/// Error parsing a vector string.
#[derive(Debug, PartialEq, Eq)]
pub enum VecError {
    /// A fixed-length vector was requested but the string had a different
    /// component count.
    ComponentCount {
        /// Components requested by the field.
        expected: usize,
        /// Components actually found (space count + 1, capped at 4).
        found: usize,
    },
}

/// Error parsing a color value.
#[derive(Debug, PartialEq, Eq)]
pub enum ColorError {
    /// A `#`-hex digit string was not 3, 4, 6 or 8 digits.
    HexLength {
        /// Length in bytes of what follows `#`.
        len: usize,
    },
    /// A `#`-hex string held non-hex characters.
    HexDigits {
        /// The offending digit string.
        digits: String,
    },
    /// A space-separated color had a component count other than 3 or 4.
    ComponentCount {
        /// Number of components found.
        count: usize,
    },
}

/// What a [`ColorError`] reports.
pub enum ColorErrorView {
    /// A hex string of unsupported length.
    HexLength(int),
    /// A hex string with other characters in it.
    HexDigits(Seq<char>),
    /// A component count other than 3 or 4.
    ComponentCount(int),
}

impl View for ColorError {
    type V = ColorErrorView;

    open spec fn view(&self) -> ColorErrorView {
        match self {
            ColorError::HexLength { len } => ColorErrorView::HexLength(*len as int),
            ColorError::HexDigits { digits } => ColorErrorView::HexDigits(digits@),
            ColorError::ComponentCount { count } => ColorErrorView::ComponentCount(*count as int),
        }
    }
}

impl VecError {
    /// The message of the error.
    pub fn message(&self) -> (r: String)
        ensures
            r@ == vec_message(*self),
    {
        match self {
            VecError::ComponentCount { expected, found } => {
                let mut out = "vector has ".to_owned();
                let n = crate::json::decimal_text(*found as u64);
                out.append(n.as_str());
                out.append(" components (expected ");
                let m = crate::json::decimal_text(*expected as u64);
                out.append(m.as_str());
                out.append(")");
                out
            },
        }
    }
}

/// The message of a [`VecError`].
pub open spec fn vec_message(e: VecError) -> Seq<char> {
    match e {
        VecError::ComponentCount { expected, found } => "vector has "@ + crate::json::decimal(
            found as nat,
        ) + " components (expected "@ + crate::json::decimal(expected as nat) + ")"@,
    }
}

/// The number C's `strtof` reads from a text.
pub open spec fn read_scalar(s: Seq<char>) -> ScalarView {
    ScalarView::Text(crate::literal::read_literal(s))
}

/// C `strtof`: skip leading white space, convert the longest float prefix,
/// zero when nothing converts.
pub fn strtof(s: &str) -> (r: Scalar)
    ensures
        r@ == read_scalar(s@),
{
    Scalar::Text(leading_literal(s))
}

/// The components of a vector string: its pieces between single spaces, at
/// most four of them.
pub open spec fn components(s: Seq<char>) -> Seq<ScalarView> {
    let parts = crate::text::pieces(s, ' ');
    Seq::new(
        if parts.len() < 4 { parts.len() } else { 4 },
        |i: int| read_scalar(parts[i]),
    )
}

/// Parse a space-separated vector string into up to four components.
///
/// The separator is exactly one space, so consecutive spaces yield empty
/// components, which read as zero.
pub fn parse_vec_components(s: &str) -> (out: Vec<Scalar>)
    ensures
        crate::number::scalars(out@) == components(s@),
        1 <= out@.len() <= 4,
{
    let parts = split_on(s, ' ');
    let ghost all = crate::text::pieces(s@, ' ');
    let mut out: Vec<Scalar> = Vec::new();
    let mut i: usize = 0;
    assert(crate::text::texts(parts@).len() == parts@.len());
    while i < parts.len() && i < 4
        invariant
            i <= parts@.len(),
            i <= 4,
            out@.len() == i,
            crate::text::texts(parts@) == all,
            forall|k: int| 0 <= k < i ==> (#[trigger] out@[k])@ == read_scalar(all[k]),
        decreases parts@.len() - i,
    {
        assert(crate::text::texts(parts@)[i as int] == parts@[i as int]@);
        out.push(strtof(parts[i].as_str()));
        i = i + 1;
    }
    assert(crate::number::scalars(out@) =~= components(s@));
    out
}

/// Parse a fixed-length vector; any other component count is an error.
pub fn parse_vec<const N: usize>(s: &str) -> (r: Result<Vec<Scalar>, VecError>)
    ensures
        match r {
            Ok(v) => components(s@).len() == N && crate::number::scalars(v@) == components(s@),
            Err(VecError::ComponentCount { expected, found }) => components(s@).len() != N && expected == N
                && found == components(s@).len(),
        },
{
    let parts = parse_vec_components(s);
    assert(crate::number::scalars(parts@).len() == parts@.len());
    if parts.len() != N {
        Err(VecError::ComponentCount { expected: N, found: parts.len() })
    } else {
        Ok(parts)
    }
}

/// The two components of a vector string that has two.
pub open spec fn vec2_of(s: Seq<char>) -> Option<Seq<ScalarView>> {
    if components(s).len() == 2 {
        Some(components(s))
    } else {
        None
    }
}

/// The three components of a vector string that has three.
pub open spec fn vec3_of(s: Seq<char>) -> Option<Seq<ScalarView>> {
    if components(s).len() == 3 {
        Some(components(s))
    } else {
        None
    }
}

/// Parse a 2-component vector.
pub fn parse_vec2(s: &str) -> (r: Option<Vec2>)
    ensures
        match r {
            Some(v) => vec2_of(s@) == Some(crate::number::scalars(v@)),
            None => vec2_of(s@) is None,
        },
{
    match parse_vec::<2>(s) {
        Ok(mut v) => {
            let ghost all = crate::number::scalars(v@);
            assert(all.len() == v@.len());
            assert(all[0] == v@[0]@ && all[1] == v@[1]@);
            let y = v.pop();
            let x = v.pop();
            match (x, y) {
                (Some(x), Some(y)) => {
                    let r = [x, y];
                    assert(crate::number::scalars(r@) =~= all);
                    Some(r)
                },
                _ => None,
            }
        },
        Err(_) => None,
    }
}

/// Parse a 3-component vector.
pub fn parse_vec3(s: &str) -> (r: Option<Vec3>)
    ensures
        match r {
            Some(v) => vec3_of(s@) == Some(crate::number::scalars(v@)),
            None => vec3_of(s@) is None,
        },
{
    match parse_vec::<3>(s) {
        Ok(mut v) => {
            let ghost all = crate::number::scalars(v@);
            assert(all.len() == v@.len());
            assert(all[0] == v@[0]@ && all[1] == v@[1]@ && all[2] == v@[2]@);
            let z = v.pop();
            let y = v.pop();
            let x = v.pop();
            match (x, y, z) {
                (Some(x), Some(y), Some(z)) => {
                    let r = [x, y, z];
                    assert(crate::number::scalars(r@) =~= all);
                    Some(r)
                },
                _ => None,
            }
        },
        Err(_) => None,
    }
}

/// Each character twice.
pub open spec fn doubled(s: Seq<char>) -> Seq<char> {
    Seq::new(2 * s.len(), |i: int| s[i / 2])
}

/// The value of a hexadecimal digit of either case.
pub open spec fn hex_digit(c: char) -> Option<nat> {
    if '0' <= c && c <= '9' {
        Some((c as u32 - '0' as u32) as nat)
    } else if 'a' <= c && c <= 'f' {
        Some((c as u32 - 'a' as u32 + 10) as nat)
    } else if 'A' <= c && c <= 'F' {
        Some((c as u32 - 'A' as u32 + 10) as nat)
    } else {
        None
    }
}

/// The value of hexadecimal digits, nothing when a character is no digit.
pub open spec fn hex_digits(s: Seq<char>) -> Option<nat>
    decreases s.len(),
{
    if s.len() == 0 {
        Some(0)
    } else {
        match (hex_digits(s.drop_last()), hex_digit(s.last())) {
            (Some(v), Some(d)) => Some(16 * v + d),
            _ => None,
        }
    }
}

/// The value of a hexadecimal number, which has at least one digit.
pub open spec fn hex_number(s: Seq<char>) -> Option<nat> {
    if s.len() == 0 {
        None
    } else {
        hex_digits(s)
    }
}

/// The eight hex digits that a hex color of `n` bytes stands for: the short
/// forms double each digit, a missing alpha is `ff`.
pub open spec fn hex_expanded(digits: Seq<char>, n: nat) -> Option<Seq<char>> {
    if n == 3 {
        Some(doubled(digits) + seq!['f', 'f'])
    } else if n == 4 {
        Some(doubled(digits))
    } else if n == 6 {
        Some(digits + seq!['f', 'f'])
    } else if n == 8 {
        Some(digits)
    } else {
        None
    }
}

/// The four bytes of a number, from the highest down.
pub open spec fn hex_channels(v: nat) -> Seq<ScalarView> {
    seq![
        ScalarView::Channel((v / 0x100_0000) as i64),
        ScalarView::Channel((v / 0x1_0000 % 0x100) as i64),
        ScalarView::Channel((v / 0x100 % 0x100) as i64),
        ScalarView::Channel((v % 0x100) as i64),
    ]
}

/// The color that a `#` string stands for.
pub open spec fn hex_color(digits: Seq<char>) -> Result<Seq<ScalarView>, ColorErrorView> {
    let n = vstd::utf8::encode_utf8(digits).len();
    match hex_expanded(digits, n) {
        None => Err(ColorErrorView::HexLength(n as int)),
        Some(expanded) => match hex_number(expanded) {
            None => Err(ColorErrorView::HexDigits(digits)),
            Some(v) => Ok(hex_channels(v)),
        },
    }
}

/// One component of a space-separated color.
pub open spec fn color_channel(raw: Seq<char>, is_float: bool) -> ScalarView {
    if is_float {
        read_scalar(raw)
    } else {
        ScalarView::Channel(crate::literal::clamped_int(raw))
    }
}

/// The color that a text stands for. Commas count as spaces. A `#` starts a
/// hex color; otherwise there are three components, with `alpha` as the
/// fourth, or four. They are integers from 0 to 255 unless there is a point
/// in the text or `force_float` is set.
pub open spec fn color_of(s: Seq<char>, alpha: ScalarView, force_float: bool) -> Result<
    Seq<ScalarView>,
    ColorErrorView,
> {
    let t = crate::text::replaced(s, ',', ' ');
    if t.len() > 0 && t[0] == '#' {
        hex_color(t.drop_first())
    } else {
        let parts = crate::text::pieces(t, ' ');
        let is_float = force_float || t.contains('.');
        if parts.len() == 3 {
            Ok(
                seq![
                    color_channel(parts[0], is_float),
                    color_channel(parts[1], is_float),
                    color_channel(parts[2], is_float),
                    alpha,
                ],
            )
        } else if parts.len() == 4 {
            Ok(
                seq![
                    color_channel(parts[0], is_float),
                    color_channel(parts[1], is_float),
                    color_channel(parts[2], is_float),
                    color_channel(parts[3], is_float),
                ],
            )
        } else {
            Err(ColorErrorView::ComponentCount(parts.len() as int))
        }
    }
}

/// A string has no more characters than bytes.
proof fn lemma_bytes_bound(s: Seq<char>)
    ensures
        s.len() <= vstd::utf8::encode_utf8(s).len(),
    decreases s.len(),
{
    if s.len() > 0 {
        lemma_bytes_bound(s.drop_first());
    }
}

/// Digits below the `n`-th power of sixteen.
proof fn lemma_hex_bound(s: Seq<char>)
    requires
        s.len() <= 8,
        hex_digits(s) is Some,
    ensures
        hex_digits(s)->0 < vstd::arithmetic::power::pow(16, s.len()),
        hex_digits(s)->0 <= 0xffff_ffff,
    decreases s.len(),
{
    assert(vstd::arithmetic::power::pow(16, 8) == 0x1_0000_0000) by {
        reveal_with_fuel(vstd::arithmetic::power::pow, 9);
    }
    reveal(vstd::arithmetic::power::pow);
    if s.len() > 0 {
        lemma_hex_bound(s.drop_last());
        assert(vstd::arithmetic::power::pow(16, s.len()) == 16 * vstd::arithmetic::power::pow(
            16,
            (s.len() - 1) as nat,
        ));
    }
    if s.len() < 8 {
        vstd::arithmetic::power::lemma_pow_increases(16, s.len(), 8);
    }
}

/// The value of one hexadecimal digit.
fn hex_digit_value(c: char) -> (r: Option<u32>)
    ensures
        match r {
            Some(d) => hex_digit(c) == Some(d as nat) && d < 16,
            None => hex_digit(c) is None,
        },
{
    if '0' <= c && c <= '9' {
        Some(c as u32 - '0' as u32)
    } else if 'a' <= c && c <= 'f' {
        Some(c as u32 - 'a' as u32 + 10)
    } else if 'A' <= c && c <= 'F' {
        Some(c as u32 - 'A' as u32 + 10)
    } else {
        None
    }
}

/// Read a hexadecimal number of at most eight characters.
fn hex_value(chars: &Vec<char>) -> (r: Option<u32>)
    requires
        chars@.len() <= 8,
    ensures
        match r {
            Some(v) => hex_number(chars@) == Some(v as nat),
            None => hex_number(chars@) is None,
        },
{
    if chars.len() == 0 {
        return None;
    }
    let mut v: u32 = 0;
    let mut i: usize = 0;
    assert(chars@.take(0) == Seq::<char>::empty());
    while i < chars.len()
        invariant
            i <= chars@.len(),
            0 < chars@.len() <= 8,
            hex_digits(chars@.take(i as int)) == Some(v as nat),
        decreases chars@.len() - i,
    {
        let ghost part = chars@.take(i + 1);
        assert(part.drop_last() == chars@.take(i as int));
        assert(part.last() == chars@[i as int]);
        match hex_digit_value(chars[i]) {
            None => {
                proof {
                    lemma_hex_fails(chars@, i + 1);
                }
                return None;
            },
            Some(d) => {
                proof {
                    lemma_hex_bound(part);
                }
                v = 16 * v + d;
            },
        }
        i = i + 1;
    }
    assert(chars@.take(chars@.len() as int) == chars@);
    Some(v)
}

/// A text with a bad prefix is bad.
proof fn lemma_hex_fails(s: Seq<char>, n: int)
    requires
        0 <= n <= s.len(),
        hex_digits(s.take(n)) is None,
    ensures
        hex_digits(s) is None,
    decreases s.len() - n,
{
    if n < s.len() {
        assert(s.take(n + 1).drop_last() == s.take(n));
        lemma_hex_fails(s, n + 1);
    } else {
        assert(s.take(n) == s);
    }
}

/// Each character twice, then `tail`.
fn double_chars(chars: &Vec<char>) -> (out: Vec<char>)
    requires
        chars@.len() <= 4,
    ensures
        out@ == doubled(chars@),
{
    let mut out: Vec<char> = Vec::new();
    let mut i: usize = 0;
    while i < chars.len()
        invariant
            i <= chars@.len(),
            out@.len() == 2 * i,
            forall|k: int| 0 <= k < out@.len() ==> #[trigger] out@[k] == chars@[k / 2],
        decreases chars@.len() - i,
    {
        out.push(chars[i]);
        out.push(chars[i]);
        i = i + 1;
    }
    assert(out@ =~= doubled(chars@));
    out
}

/// Parse the digits of a `#` color.
fn parse_hex_color(digits: String) -> (r: Result<Color, ColorError>)
    ensures
        match r {
            Ok(c) => hex_color(digits@) == Ok::<Seq<ScalarView>, ColorErrorView>(
                crate::number::scalars(c@),
            ),
            Err(e) => hex_color(digits@) == Err::<Seq<ScalarView>, ColorErrorView>(e@),
        },
{
    let n = digits.as_str().as_bytes().len();
    let chars = chars_of(digits.as_str());
    proof {
        lemma_bytes_bound(digits@);
    }
    let mut expanded: Vec<char>;
    if n == 3 {
        expanded = double_chars(&chars);
        expanded.push('f');
        expanded.push('f');
        assert(expanded@ =~= doubled(digits@) + seq!['f', 'f']);
    } else if n == 4 {
        expanded = double_chars(&chars);
    } else if n == 6 {
        expanded = chars;
        expanded.push('f');
        expanded.push('f');
        assert(expanded@ =~= digits@ + seq!['f', 'f']);
    } else if n == 8 {
        expanded = chars;
    } else {
        return Err(ColorError::HexLength { len: n });
    }
    match hex_value(&expanded) {
        None => Err(ColorError::HexDigits { digits }),
        Some(v) => {
            let c: Color = [
                Scalar::Channel((v / 0x100_0000) as i64),
                Scalar::Channel((v / 0x1_0000 % 0x100) as i64),
                Scalar::Channel((v / 0x100 % 0x100) as i64),
                Scalar::Channel((v % 0x100) as i64),
            ];
            assert(crate::number::scalars(c@) =~= hex_channels(v as nat));
            Ok(c)
        },
    }
}

/// One component of a space-separated color.
fn parse_channel(raw: &str, is_float: bool) -> (r: Scalar)
    ensures
        r@ == color_channel(raw@, is_float),
{
    if is_float {
        strtof(raw)
    } else {
        Scalar::Channel(strtoi(raw))
    }
}

/// Parse a color in any of its spellings.
///
/// `alpha` supplies the alpha of 3-component values; `force_float` disables
/// the integer reading of components.
pub fn parse_color(s: &str, alpha: Scalar, force_float: bool) -> (r: Result<Color, ColorError>)
    ensures
        match r {
            Ok(c) => color_of(s@, alpha@, force_float) == Ok::<Seq<ScalarView>, ColorErrorView>(
                crate::number::scalars(c@),
            ),
            Err(e) => color_of(s@, alpha@, force_float) == Err::<Seq<ScalarView>, ColorErrorView>(e@),
        },
{
    let normalized = replace_char(s, ',', ' ');
    let chars = chars_of(normalized.as_str());
    if chars.len() > 0 && chars[0] == '#' {
        let digits = slice_text(&chars, 1, chars.len());
        assert(digits@ == normalized@.drop_first());
        return parse_hex_color(digits);
    }
    let parts = split_on(normalized.as_str(), ' ');
    let ghost all = crate::text::pieces(normalized@, ' ');
    assert(crate::text::texts(parts@).len() == parts@.len());
    assert(forall|i: int| 0 <= i < parts@.len() ==> all[i] == (#[trigger] parts@[i])@);
    let is_float = force_float || contains_char(normalized.as_str(), '.');
    if parts.len() == 3 {
        let c: Color = [
            parse_channel(parts[0].as_str(), is_float),
            parse_channel(parts[1].as_str(), is_float),
            parse_channel(parts[2].as_str(), is_float),
            alpha,
        ];
        assert(crate::number::scalars(c@) =~= color_of(s@, alpha@, force_float)->Ok_0);
        Ok(c)
    } else if parts.len() == 4 {
        let c: Color = [
            parse_channel(parts[0].as_str(), is_float),
            parse_channel(parts[1].as_str(), is_float),
            parse_channel(parts[2].as_str(), is_float),
            parse_channel(parts[3].as_str(), is_float),
        ];
        assert(crate::number::scalars(c@) =~= color_of(s@, alpha@, force_float)->Ok_0);
        Ok(c)
    } else {
        Err(ColorError::ComponentCount { count: parts.len() })
    }
}

/// The number zero.
pub fn zero() -> (r: Scalar)
    ensures
        r@ == ScalarView::Whole(0),
{
    Scalar::Whole(0)
}

/// The number one.
pub fn one() -> (r: Scalar)
    ensures
        r@ == ScalarView::Whole(1),
{
    Scalar::Whole(1)
}

/// A flag as a number: one or zero.
pub open spec fn flag_scalar(b: bool) -> ScalarView {
    ScalarView::Whole(if b { 1 } else { 0 })
}

/// A flag as a number.
pub fn flag(b: bool) -> (r: Scalar)
    ensures
        r@ == flag_scalar(b),
{
    Scalar::Whole(if b { 1 } else { 0 })
}

/// A word that means yes.
pub open spec fn is_true_word(s: Seq<char>) -> bool {
    s == "1"@ || s == "true"@ || s == "True"@ || s == "TRUE"@
}

/// Whether a text is a word that means yes.
pub fn true_word(s: &str) -> (r: bool)
    ensures
        r == is_true_word(s@),
{
    same(s, "1") || same(s, "true") || same(s, "True") || same(s, "TRUE")
}

/// A JSON number as an integer, cut off towards zero and to the range.
pub open spec fn number_int(n: crate::json::NumberView) -> i64 {
    match n {
        crate::json::NumberView::PosInt(u) => if u <= i64::MAX {
            u as i64
        } else {
            i64::MAX
        },
        crate::json::NumberView::NegInt(i) => i,
        crate::json::NumberView::Float { bits, text: _ } => crate::number::double_truncated(bits),
    }
}

/// A JSON number as a floating-point number.
pub open spec fn number_scalar(n: crate::json::NumberView) -> ScalarView {
    match n {
        crate::json::NumberView::PosInt(u) => ScalarView::WideWhole(u as i128),
        crate::json::NumberView::NegInt(i) => ScalarView::WideWhole(i as i128),
        crate::json::NumberView::Float { bits, text: _ } => ScalarView::Double(bits),
    }
}

/// A value read as a flag: a number by being nonzero, a string by being a
/// word that means yes. Nothing for `null`, arrays and objects.
pub open spec fn as_flag(v: crate::json::JsonView) -> Option<bool> {
    match v {
        crate::json::JsonView::Bool(b) => Some(b),
        crate::json::JsonView::Number(crate::json::NumberView::PosInt(u)) => Some(u != 0),
        crate::json::JsonView::Number(crate::json::NumberView::NegInt(i)) => Some(i != 0),
        crate::json::JsonView::Number(crate::json::NumberView::Float { bits, text: _ }) => Some(
            !crate::number::double_zero(bits),
        ),
        crate::json::JsonView::String(s) => Some(is_true_word(s)),
        _ => None,
    }
}

/// A value read as a floating-point number: a flag as one or zero, a string
/// by its leading literal. Nothing for `null`, arrays and objects.
pub open spec fn as_scalar(v: crate::json::JsonView) -> Option<ScalarView> {
    match v {
        crate::json::JsonView::Number(n) => Some(number_scalar(n)),
        crate::json::JsonView::Bool(b) => Some(flag_scalar(b)),
        crate::json::JsonView::String(s) => Some(
            ScalarView::WideText(crate::literal::read_literal(s)),
        ),
        _ => None,
    }
}

/// A value read as an integer: numbers cut off, a flag as one or zero, a
/// string by its leading integer. Nothing for `null`, arrays and objects.
pub open spec fn as_int(v: crate::json::JsonView) -> Option<i64> {
    match v {
        crate::json::JsonView::Number(n) => Some(number_int(n)),
        crate::json::JsonView::Bool(b) => Some(if b { 1 } else { 0 }),
        crate::json::JsonView::String(s) => Some(crate::literal::read_int(s)),
        _ => None,
    }
}

/// An integer brought into the range of `u32`.
pub open spec fn clamp_u32(i: i64) -> u32 {
    if i < 0 {
        0
    } else if i > u32::MAX {
        u32::MAX
    } else {
        i as u32
    }
}

/// A value read as an unsigned integer.
pub open spec fn as_unsigned(v: crate::json::JsonView) -> Option<u32> {
    match as_int(v) {
        Some(i) => Some(clamp_u32(i)),
        None => None,
    }
}

/// Read a value as a flag; nothing when it is not coercible.
pub fn coerce_bool(v: &Json) -> (r: Option<bool>)
    ensures
        r == as_flag(v@),
{
    match v {
        Json::Bool(b) => Some(*b),
        Json::Number(Number::PosInt(u)) => Some(*u != 0),
        Json::Number(Number::NegInt(i)) => Some(*i != 0),
        Json::Number(Number::Float { bits, text: _ }) => Some(*bits % 0x8000_0000_0000_0000 != 0),
        Json::String(s) => Some(true_word(s.as_str())),
        Json::Null | Json::Array(_) | Json::Object(_) => None,
    }
}

/// A JSON number as a floating-point number.
pub fn number_to_scalar(n: &Number) -> (r: Scalar)
    ensures
        r@ == number_scalar(n@),
{
    match n {
        Number::PosInt(u) => Scalar::WideWhole(*u as i128),
        Number::NegInt(i) => Scalar::WideWhole(*i as i128),
        Number::Float { bits, text: _ } => Scalar::Double(*bits),
    }
}

/// Read a value as a floating-point number; nothing when it is not coercible.
pub fn coerce_f64(v: &Json) -> (r: Option<Scalar>)
    ensures
        match r {
            Some(n) => as_scalar(v@) == Some(n@),
            None => as_scalar(v@) is None,
        },
{
    match v {
        Json::Number(n) => Some(number_to_scalar(n)),
        Json::Bool(b) => Some(flag(*b)),
        Json::String(s) => Some(Scalar::WideText(leading_literal(s.as_str()))),
        Json::Null | Json::Array(_) | Json::Object(_) => None,
    }
}

/// Read a value as an integer; nothing when it is not coercible.
pub fn coerce_i64(v: &Json) -> (r: Option<i64>)
    ensures
        r == as_int(v@),
{
    match v {
        Json::Number(Number::PosInt(u)) => Some(
            if *u <= 0x7fff_ffff_ffff_ffff {
                *u as i64
            } else {
                i64::MAX
            },
        ),
        Json::Number(Number::NegInt(i)) => Some(*i),
        Json::Number(Number::Float { bits, text: _ }) => Some(double_to_i64(*bits)),
        Json::Bool(b) => Some(
            if *b {
                1
            } else {
                0
            },
        ),
        Json::String(s) => Some(int_or_zero(s.as_str())),
        Json::Null | Json::Array(_) | Json::Object(_) => None,
    }
}

/// Read a value as an unsigned integer; nothing when it is not coercible.
pub fn coerce_u32(v: &Json) -> (r: Option<u32>)
    ensures
        r == as_unsigned(v@),
{
    match coerce_i64(v) {
        Some(i) => Some(
            if i < 0 {
                0
            } else if i > 0xffff_ffff {
                0xffff_ffff
            } else {
                i as u32
            },
        ),
        None => None,
    }
}

/// A decoded value literal.
#[derive(Debug)]
pub enum DynamicValue {
    /// A boolean literal.
    Bool(bool),
    /// An integer literal.
    Int(i64),
    /// A floating-point literal.
    Float(Scalar),
    /// A string literal that did not parse as a single float.
    Str(String),
    /// A vector literal of 2 to 4 components.
    Vec(Vec<Scalar>),
    /// A color literal.
    Color(Color),
    /// A JSON `null` literal.
    Null,
}

/// What a [`DynamicValue`] holds.
pub enum DynamicView {
    /// A boolean literal.
    Bool(bool),
    /// An integer literal.
    Int(i64),
    /// A floating-point literal.
    Float(ScalarView),
    /// A string literal.
    Str(Seq<char>),
    /// A vector literal.
    Vec(Seq<ScalarView>),
    /// A color literal.
    Color(Seq<ScalarView>),
    /// A JSON `null` literal.
    Null,
}

impl View for DynamicValue {
    type V = DynamicView;

    open spec fn view(&self) -> DynamicView {
        match self {
            DynamicValue::Bool(b) => DynamicView::Bool(*b),
            DynamicValue::Int(i) => DynamicView::Int(*i),
            DynamicValue::Float(f) => DynamicView::Float(f@),
            DynamicValue::Str(s) => DynamicView::Str(s@),
            DynamicValue::Vec(v) => DynamicView::Vec(crate::number::scalars(v@)),
            DynamicValue::Color(c) => DynamicView::Color(crate::number::scalars(c@)),
            DynamicValue::Null => DynamicView::Null,
        }
    }
}

/// The literal that makes up the whole of a text but for white space around
/// it.
pub open spec fn whole_literal(s: Seq<char>) -> Option<Seq<char>> {
    let t = crate::literal::after_space(s);
    let lead = crate::literal::float_lead(t);
    if lead.len() > 0 && lead.len() == crate::text::trimmed_end(t).len() {
        Some(lead)
    } else {
        None
    }
}

/// What a value literal decodes to. A string is a color where one is
/// expected; otherwise a single word is a number when all of it is one, and
/// several words are a vector.
pub open spec fn decoded(v: crate::json::JsonView, color_expected: bool) -> DynamicView {
    match v {
        crate::json::JsonView::Null => DynamicView::Null,
        crate::json::JsonView::Bool(b) => DynamicView::Bool(b),
        crate::json::JsonView::Number(crate::json::NumberView::PosInt(u)) => DynamicView::Int(
            if u <= i64::MAX {
                u as i64
            } else {
                0
            },
        ),
        crate::json::JsonView::Number(crate::json::NumberView::NegInt(i)) => DynamicView::Int(i),
        crate::json::JsonView::Number(crate::json::NumberView::Float { bits, text: _ }) => DynamicView::Float(
            ScalarView::Double(bits),
        ),
        crate::json::JsonView::String(s) => if color_expected {
            match color_of(s, ScalarView::Whole(1), false) {
                Ok(c) => DynamicView::Color(c),
                Err(_) => DynamicView::Str(s),
            }
        } else if s.contains(' ') {
            DynamicView::Vec(components(s))
        } else {
            match whole_literal(s) {
                Some(t) => DynamicView::Float(ScalarView::Text(t)),
                None => DynamicView::Str(s),
            }
        },
        _ => DynamicView::Str(crate::json::rendered(v)),
    }
}

/// A literal read as a floating-point number.
pub open spec fn dynamic_scalar(v: DynamicView) -> ScalarView {
    match v {
        DynamicView::Bool(b) => flag_scalar(b),
        DynamicView::Int(i) => ScalarView::Whole(i),
        DynamicView::Float(f) => f,
        DynamicView::Str(s) => read_scalar(s),
        DynamicView::Vec(v) => if v.len() > 0 { v[0] } else { ScalarView::Whole(0) },
        DynamicView::Color(c) => c[0],
        DynamicView::Null => ScalarView::Whole(0),
    }
}

/// The floating-point numbers that a literal holds.
pub open spec fn numbers_in(v: DynamicView) -> Seq<ScalarView> {
    match v {
        DynamicView::Float(f) => seq![f],
        DynamicView::Vec(c) => c,
        DynamicView::Color(c) => c,
        _ => Seq::empty(),
    }
}

/// Whether there is one printed number for each floating-point number that a
/// literal holds.
pub open spec fn prints(v: DynamicView, printed: Seq<Seq<char>>) -> bool {
    printed.len() == numbers_in(v).len() && forall|i: int|
        0 <= i < printed.len() ==> crate::literal::is_float_literal(#[trigger] printed[i])
}

/// The string form of a literal, given the printed forms of its numbers.
pub open spec fn string_form(v: DynamicView, printed: Seq<Seq<char>>) -> Seq<char> {
    match v {
        DynamicView::Str(s) => s,
        DynamicView::Bool(b) => if b { "true"@ } else { "false"@ },
        DynamicView::Int(i) => crate::json::decimal_int(i as int),
        DynamicView::Null => Seq::empty(),
        _ => crate::text::joined(printed, ' '),
    }
}

/// Copies of a list of numbers.
pub fn copy_scalars(v: &Vec<Scalar>) -> (out: Vec<Scalar>)
    ensures
        crate::number::scalars(out@) == crate::number::scalars(v@),
        out@.len() == v@.len(),
{
    let mut out: Vec<Scalar> = Vec::new();
    let mut i: usize = 0;
    while i < v.len()
        invariant
            i <= v@.len(),
            out@.len() == i,
            forall|k: int| 0 <= k < i ==> (#[trigger] out@[k])@ == v@[k]@,
        decreases v@.len() - i,
    {
        out.push(v[i].copy());
        i = i + 1;
    }
    assert(crate::number::scalars(out@) =~= crate::number::scalars(v@));
    out
}

/// A copy of a color.
pub fn copy_color(c: &Color) -> (out: Color)
    ensures
        crate::number::scalars(out@) == crate::number::scalars(c@),
{
    let out: Color = [c[0].copy(), c[1].copy(), c[2].copy(), c[3].copy()];
    assert(crate::number::scalars(out@) =~= crate::number::scalars(c@));
    out
}

/// The literal that makes up the whole of a text but for white space.
fn parse_whole(s: &str) -> (r: Option<String>)
    ensures
        match r {
            Some(t) => whole_literal(s@) == Some(t@),
            None => whole_literal(s@) is None,
        },
{
    let rest = crate::literal::skip_c_whitespace(s);
    let prefix = crate::literal::float_prefix(rest.as_str());
    let chars = chars_of(rest.as_str());
    let n = crate::text::drop_white(&chars, 0);
    assert(chars@.skip(0) == chars@);
    let lead = chars_of(prefix.as_str());
    if lead.len() > 0 && lead.len() == n {
        Some(prefix)
    } else {
        None
    }
}

impl DynamicValue {
    /// Decode a JSON value literal by type.
    ///
    /// `color_expected` routes strings through the color parser.
    pub fn decode(value: &Json, color_expected: bool) -> (r: DynamicValue)
        ensures
            r@ == decoded(value@, color_expected),
    {
        match value {
            Json::Null => DynamicValue::Null,
            Json::Bool(b) => DynamicValue::Bool(*b),
            Json::Number(Number::PosInt(u)) => DynamicValue::Int(
                if *u <= 0x7fff_ffff_ffff_ffff {
                    *u as i64
                } else {
                    0
                },
            ),
            Json::Number(Number::NegInt(i)) => DynamicValue::Int(*i),
            Json::Number(Number::Float { bits, text: _ }) => DynamicValue::Float(Scalar::Double(*bits)),
            Json::String(s) => {
                if color_expected {
                    match parse_color(s.as_str(), one(), false) {
                        Ok(c) => DynamicValue::Color(c),
                        Err(_) => DynamicValue::Str(s.clone()),
                    }
                } else if contains_char(s.as_str(), ' ') {
                    DynamicValue::Vec(parse_vec_components(s.as_str()))
                } else {
                    match parse_whole(s.as_str()) {
                        Some(t) => DynamicValue::Float(Scalar::Text(t)),
                        None => DynamicValue::Str(s.clone()),
                    }
                }
            },
            Json::Array(_) | Json::Object(_) => DynamicValue::Str(value.render()),
        }
    }

    /// An equal value.
    pub fn copy(&self) -> (r: DynamicValue)
        ensures
            r@ == self@,
    {
        match self {
            DynamicValue::Bool(b) => DynamicValue::Bool(*b),
            DynamicValue::Int(i) => DynamicValue::Int(*i),
            DynamicValue::Float(f) => DynamicValue::Float(f.copy()),
            DynamicValue::Str(s) => DynamicValue::Str(s.clone()),
            DynamicValue::Vec(v) => DynamicValue::Vec(copy_scalars(v)),
            DynamicValue::Color(c) => DynamicValue::Color(copy_color(c)),
            DynamicValue::Null => DynamicValue::Null,
        }
    }

    /// Read this value as a floating-point number: the first component of a
    /// vector or color, the leading literal of a string.
    pub fn as_f32(&self) -> (r: Scalar)
        ensures
            r@ == dynamic_scalar(self@),
    {
        match self {
            DynamicValue::Bool(b) => flag(*b),
            DynamicValue::Int(i) => Scalar::Whole(*i),
            DynamicValue::Float(f) => f.copy(),
            DynamicValue::Str(s) => strtof(s.as_str()),
            DynamicValue::Vec(v) => if v.len() > 0 {
                v[0].copy()
            } else {
                zero()
            },
            DynamicValue::Color(c) => c[0].copy(),
            DynamicValue::Null => zero(),
        }
    }

    /// Read this value as a flag, given whether the number that
    /// [`DynamicValue::as_f32`] names differs from zero.
    pub fn as_bool(&self, nonzero: bool) -> (r: bool)
        ensures
            r == match self@ {
                DynamicView::Bool(b) => b,
                DynamicView::Null => false,
                DynamicView::Str(s) => is_true_word(s),
                _ => nonzero,
            },
    {
        match self {
            DynamicValue::Bool(b) => *b,
            DynamicValue::Null => false,
            DynamicValue::Str(s) => true_word(s.as_str()),
            _ => nonzero,
        }
    }

    /// Read this value as its string form, given the printed forms of the
    /// numbers it holds.
    pub fn as_string(&self, printed: &Vec<String>) -> (r: String)
        requires
            prints(self@, crate::text::texts(printed@)),
        ensures
            r@ == string_form(self@, crate::text::texts(printed@)),
    {
        match self {
            DynamicValue::Str(s) => s.clone(),
            DynamicValue::Bool(b) => if *b {
                "true".to_owned()
            } else {
                "false".to_owned()
            },
            DynamicValue::Int(i) => decimal_int_text(*i),
            DynamicValue::Null => String::new(),
            _ => crate::text::join(printed, ' '),
        }
    }
}

/// Decoding undoes [`DynamicValue::as_string`] on vectors: the string form of a
/// vector decodes to the vector of the numbers that were printed, and to the
/// same vector where it was read from these.
pub proof fn law_vector_text_decodes(v: DynamicView, printed: Seq<Seq<char>>)
    requires
        v is Vec,
        2 <= numbers_in(v).len() <= 4,
        prints(v, printed),
    ensures
        decoded(crate::json::JsonView::String(string_form(v, printed)), false) == DynamicView::Vec(
            printed.map_values(|t: Seq<char>| ScalarView::Text(t)),
        ),
        (forall|i: int|
            0 <= i < printed.len() ==> #[trigger] numbers_in(v)[i] == ScalarView::Text(printed[i]))
            ==> decoded(crate::json::JsonView::String(string_form(v, printed)), false) == v,
{
    let s = crate::text::joined(printed, ' ');
    assert forall|i: int| 0 <= i < printed.len() implies !(#[trigger] printed[i]).contains(' ') by {
        crate::literal::lemma_literal_solid(printed[i]);
    }
    crate::text::law_joined_splits(printed, ' ');
    let before = crate::text::joined(printed.drop_last(), ' ');
    assert(s[before.len() as int] == ' ');
    assert(s.contains(' '));
    let read = printed.map_values(|t: Seq<char>| ScalarView::Text(t));
    assert forall|i: int| 0 <= i < printed.len() implies #[trigger] components(s)[i]
        == ScalarView::Text(printed[i]) by {
        crate::literal::law_literal_reads_back(printed[i]);
    }
    assert(components(s) =~= read);
    if forall|i: int|
        0 <= i < printed.len() ==> #[trigger] numbers_in(v)[i] == ScalarView::Text(printed[i]) {
        assert(numbers_in(v) =~= read);
    }
}

/// A flag reads as one or zero, a number by not being zero, and a text by being
/// a word that means yes; nothing else reads as a flag.
pub proof fn law_values_read_as_flags(v: crate::json::JsonView)
    ensures
        v matches crate::json::JsonView::Bool(b) ==> as_flag(v) == Some(b),
        v matches crate::json::JsonView::String(s) ==> as_flag(v) == Some(
            s == "1"@ || s == "true"@ || s == "True"@ || s == "TRUE"@,
        ),
        v matches crate::json::JsonView::Number(crate::json::NumberView::PosInt(u)) ==> as_flag(v)
            == Some(u != 0),
        v matches crate::json::JsonView::Number(crate::json::NumberView::NegInt(i)) ==> as_flag(v)
            == Some(i != 0),
        v matches crate::json::JsonView::Number(crate::json::NumberView::Float { bits, text })
            ==> as_flag(v) == Some(bits % 0x8000_0000_0000_0000 != 0),
        v is Null || v is Array || v is Object ==> as_flag(v) is None,
{
}

/// An integer is itself, and what does not fit is the nearest that does; a
/// flag is one or zero, a text the integer that it starts with. Nothing else
/// reads as an integer. Unsigned, what is negative is zero.
pub proof fn law_values_read_as_integers(v: crate::json::JsonView)
    ensures
        v matches crate::json::JsonView::Number(crate::json::NumberView::PosInt(u)) ==> u
            <= i64::MAX ==> as_int(v) == Some(u as i64),
        v matches crate::json::JsonView::Number(crate::json::NumberView::PosInt(u)) ==> u > i64::MAX
            ==> as_int(v) == Some(i64::MAX),
        v matches crate::json::JsonView::Number(crate::json::NumberView::NegInt(i)) ==> as_int(v)
            == Some(i),
        v matches crate::json::JsonView::Number(crate::json::NumberView::Float { bits, text })
            ==> as_int(v) == Some(crate::number::double_truncated(bits)),
        v == crate::json::JsonView::Bool(true) ==> as_int(v) == Some(1i64),
        v == crate::json::JsonView::Bool(false) ==> as_int(v) == Some(0i64),
        v matches crate::json::JsonView::String(s) ==> as_int(v) == Some(
            crate::literal::read_int(s),
        ),
        v is Null || v is Array || v is Object ==> as_int(v) is None,
        as_unsigned(v) is Some == as_int(v) is Some,
        as_int(v) matches Some(i) ==> i < 0 ==> as_unsigned(v) == Some(0u32),
        as_int(v) matches Some(i) ==> i > u32::MAX ==> as_unsigned(v) == Some(u32::MAX),
        as_int(v) matches Some(i) ==> 0 <= i <= u32::MAX ==> as_unsigned(v) == Some(i as u32),
{
}

/// A number is itself, a flag one or zero, and a text the literal that it starts
/// with. Nothing else reads as a number.
pub proof fn law_values_read_as_numbers(v: crate::json::JsonView)
    ensures
        v matches crate::json::JsonView::Number(crate::json::NumberView::PosInt(u)) ==> as_scalar(v)
            == Some(ScalarView::WideWhole(u as i128)),
        v matches crate::json::JsonView::Number(crate::json::NumberView::NegInt(i)) ==> as_scalar(v)
            == Some(ScalarView::WideWhole(i as i128)),
        v matches crate::json::JsonView::Number(crate::json::NumberView::Float { bits, text })
            ==> as_scalar(v) == Some(ScalarView::Double(bits)),
        v == crate::json::JsonView::Bool(true) ==> as_scalar(v) == Some(ScalarView::Whole(1)),
        v == crate::json::JsonView::Bool(false) ==> as_scalar(v) == Some(ScalarView::Whole(0)),
        v matches crate::json::JsonView::String(s) ==> as_scalar(v) == Some(
            ScalarView::WideText(crate::literal::read_literal(s)),
        ),
        v is Null || v is Array || v is Object ==> as_scalar(v) is None,
{
}

/// The components of a vector are the texts between its single spaces, in order,
/// each the literal that it starts with; after the fourth they are left out. A
/// vector of two or of three has exactly as many.
pub proof fn law_components_between_spaces(s: Seq<char>)
    ensures
        components(s).len() <= 4,
        components(s).len() == crate::text::pieces(s, ' ').len() || (components(s).len() == 4
            && crate::text::pieces(s, ' ').len() > 4),
        forall|i: int|
            0 <= i < components(s).len() ==> #[trigger] components(s)[i] == ScalarView::Text(
                crate::literal::read_literal(crate::text::pieces(s, ' ')[i]),
            ),
        vec2_of(s) is Some == (crate::text::pieces(s, ' ').len() == 2),
        vec2_of(s) is Some ==> vec2_of(s)->0 == components(s),
        vec3_of(s) is Some == (crate::text::pieces(s, ' ').len() == 3),
        vec3_of(s) is Some ==> vec3_of(s)->0 == components(s),
{
}

/// A comma in a color counts as a space.
pub proof fn law_commas_part_channels(s: Seq<char>, alpha: ScalarView, force_float: bool)
    ensures
        color_of(s, alpha, force_float) == color_of(
            s.map_values(
                |c: char|
                    if c == ',' {
                        ' '
                    } else {
                        c
                    },
            ),
            alpha,
            force_float,
        ),
{
    let t = crate::text::replaced(s, ',', ' ');
    let u = s.map_values(
        |c: char|
            if c == ',' {
                ' '
            } else {
                c
            },
    );
    assert(u =~= t);
    assert(crate::text::replaced(t, ',', ' ') =~= t);
}

/// The channels of a color that is no hex color: three and the given alpha, or
/// four; any other number is refused. With a point in the text, or where floats
/// are asked for, a channel is the literal that its text starts with, and else
/// the integer.
pub proof fn law_channels_of_color(s: Seq<char>, alpha: ScalarView, force_float: bool, i: int)
    requires
        !s.contains(','),
        s.len() == 0 || s[0] != '#',
        0 <= i < crate::text::pieces(s, ' ').len(),
    ensures
        ({
            let parts = crate::text::pieces(s, ' ');
            let r = color_of(s, alpha, force_float);
            &&& parts.len() != 3 && parts.len() != 4 ==> r == Err::<Seq<ScalarView>, ColorErrorView>(
                ColorErrorView::ComponentCount(parts.len() as int),
            )
            &&& parts.len() == 3 || parts.len() == 4 ==> r is Ok && r->Ok_0.len() == 4
            &&& parts.len() == 3 ==> r->Ok_0[3] == alpha
            &&& (parts.len() == 3 || parts.len() == 4) && (force_float || s.contains('.'))
                ==> r->Ok_0[i] == ScalarView::Text(crate::literal::read_literal(parts[i]))
            &&& (parts.len() == 3 || parts.len() == 4) && !force_float && !s.contains('.')
                ==> r->Ok_0[i] == ScalarView::Channel(crate::literal::clamped_int(parts[i]))
        }),
{
    assert(crate::text::replaced(s, ',', ' ') =~= s) by {
        assert forall|k: int| 0 <= k < s.len() implies #[trigger] s[k] != ',' by {
            assert(s.contains(s[k]));
        }
    }
}

/// A hex color has three, four, six or eight digits. The short forms double
/// each digit, and without an alpha it is opaque.
pub proof fn law_hex_forms(digits: Seq<char>, i: int)
    requires
        0 <= i < digits.len(),
    ensures
        hex_expanded(digits, digits.len()) is Some == (digits.len() == 3 || digits.len() == 4
            || digits.len() == 6 || digits.len() == 8),
        hex_expanded(digits, digits.len()) is Some ==> {
            let e = hex_expanded(digits, digits.len())->0;
            &&& e.len() == 8
            &&& digits.len() <= 4 ==> e[2 * i] == digits[i] && e[2 * i + 1] == digits[i]
            &&& digits.len() >= 6 ==> e[i] == digits[i]
            &&& digits.len() == 3 || digits.len() == 6 ==> e[6] == 'f' && e[7] == 'f'
        },
{
}

/// Each channel of a hex color is the number that its two digits write, in order
/// red, green, blue and alpha; a character that is no digit is refused.
pub proof fn law_hex_channels(d: Seq<char>, i: int)
    requires
        d.len() == 8,
        0 <= i < 4,
    ensures
        hex_number(d) is Some == (forall|k: int| 0 <= k < 8 ==> hex_digit(#[trigger] d[k]) is Some),
        hex_number(d) is Some ==> hex_channels(hex_number(d)->0).len() == 4,
        hex_number(d) is Some ==> hex_channels(hex_number(d)->0)[i] == ScalarView::Channel(
            (16 * hex_digit(d[2 * i])->0 + hex_digit(d[2 * i + 1])->0) as i64,
        ),
{
    let d6 = d.take(6);
    let d4 = d.take(4);
    let d2 = d.take(2);
    lemma_hex_pair(d);
    lemma_hex_pair(d6);
    lemma_hex_pair(d4);
    lemma_hex_pair(d2);
    assert(d6.take(4) =~= d4);
    assert(d4.take(2) =~= d2);
    assert(d2.take(0).len() == 0);
    let w = Seq::new(4, |k: int| 16 * hex_digit(d[2 * k])->0 + hex_digit(d[2 * k + 1])->0);
    if forall|k: int| 0 <= k < 8 ==> hex_digit(#[trigger] d[k]) is Some {
        assert(hex_digit(d[0]) is Some && hex_digit(d[1]) is Some && hex_digit(d[2]) is Some
            && hex_digit(d[3]) is Some && hex_digit(d[4]) is Some && hex_digit(d[5]) is Some
            && hex_digit(d[6]) is Some && hex_digit(d[7]) is Some);
        lemma_bytes_of(w[0], w[1], w[2], w[3]);
        assert(hex_number(d)->0 == 0x100 * (0x100 * (0x100 * w[0] + w[1]) + w[2]) + w[3]);
    }
    if hex_number(d) is Some {
        assert forall|k: int| 0 <= k < 8 implies hex_digit(#[trigger] d[k]) is Some by {
            assert(k == 0 || k == 1 || k == 2 || k == 3 || k == 4 || k == 5 || k == 6 || k == 7);
        }
    }
}

/// The last two digits of a hexadecimal number.
proof fn lemma_hex_pair(s: Seq<char>)
    requires
        s.len() >= 2,
    ensures
        hex_digits(s) is Some == (hex_digits(s.take(s.len() - 2)) is Some && hex_digit(
            s[s.len() - 2],
        ) is Some && hex_digit(s[s.len() - 1]) is Some),
        hex_digits(s) is Some ==> hex_digits(s)->0 == 0x100 * hex_digits(s.take(s.len() - 2))->0
            + (16 * hex_digit(s[s.len() - 2])->0 + hex_digit(s[s.len() - 1])->0),
        hex_digit(s[s.len() - 2]) is Some && hex_digit(s[s.len() - 1]) is Some ==> 16 * hex_digit(
            s[s.len() - 2],
        )->0 + hex_digit(s[s.len() - 1])->0 < 0x100,
{
    let t = s.drop_last();
    assert(t.drop_last() =~= s.take(s.len() - 2));
    assert(t.last() == s[s.len() - 2]);
    assert(hex_digits(s) == match (hex_digits(t), hex_digit(s.last())) {
        (Some(v), Some(d)) => Some(16 * v + d),
        _ => None::<nat>,
    });
    assert(hex_digits(t) == match (hex_digits(s.take(s.len() - 2)), hex_digit(s[s.len() - 2])) {
        (Some(v), Some(d)) => Some(16 * v + d),
        _ => None::<nat>,
    });
}

/// The bytes of a number that is put together from them.
proof fn lemma_bytes_of(a: nat, b: nat, c: nat, d: nat)
    requires
        a < 0x100,
        b < 0x100,
        c < 0x100,
        d < 0x100,
    ensures
        hex_channels(0x100 * (0x100 * (0x100 * a + b) + c) + d) == seq![
            ScalarView::Channel(a as i64),
            ScalarView::Channel(b as i64),
            ScalarView::Channel(c as i64),
            ScalarView::Channel(d as i64),
        ],
{
    let v: nat = 0x100 * (0x100 * (0x100 * a + b) + c) + d;
    assert(v / 0x100_0000 == a);
    assert(v / 0x1_0000 == 0x100 * a + b);
    assert(v / 0x1_0000 % 0x100 == b);
    assert(v / 0x100 == 0x1_0000 * a + 0x100 * b + c);
    assert(v / 0x100 % 0x100 == c);
    assert(v % 0x100 == d);
}

/// A literal decodes by its type: what is no text stays what it is, but for an
/// integer that does not fit, which is zero. Where a color is expected, a text
/// is the color that it spells, and else itself. Otherwise a text with a space
/// in it is a vector, one that is a literal throughout is a number, and any
/// other is itself.
pub proof fn law_literals_decode(v: crate::json::JsonView)
    ensures
        decoded(crate::json::JsonView::Null, true) is Null,
        decoded(crate::json::JsonView::Null, false) is Null,
        !(v is String) ==> decoded(v, true) == decoded(v, false),
        v matches crate::json::JsonView::Bool(b) ==> decoded(v, false) == DynamicView::Bool(b),
        v matches crate::json::JsonView::Number(crate::json::NumberView::PosInt(u)) ==> u
            <= i64::MAX ==> decoded(v, false) == DynamicView::Int(u as i64),
        v matches crate::json::JsonView::Number(crate::json::NumberView::PosInt(u)) ==> u > i64::MAX
            ==> decoded(v, false) == DynamicView::Int(0),
        v matches crate::json::JsonView::Number(crate::json::NumberView::NegInt(i)) ==> decoded(
            v,
            false,
        ) == DynamicView::Int(i),
        v matches crate::json::JsonView::Number(crate::json::NumberView::Float { bits, text })
            ==> decoded(v, false) == DynamicView::Float(ScalarView::Double(bits)),
        v matches crate::json::JsonView::String(s) ==> {
            &&& color_of(s, ScalarView::Whole(1), false) matches Ok(c) ==> decoded(v, true)
                == DynamicView::Color(c)
            &&& color_of(s, ScalarView::Whole(1), false) is Err ==> decoded(v, true)
                == DynamicView::Str(s)
            &&& s.contains(' ') ==> decoded(v, false) == DynamicView::Vec(components(s))
            &&& !s.contains(' ') ==> decoded(v, false) is Float || decoded(v, false)
                == DynamicView::Str(s)
            &&& !s.contains(' ') && crate::literal::is_float_literal(s) ==> decoded(v, false)
                == DynamicView::Float(ScalarView::Text(s))
            &&& !s.contains(' ') && whole_literal(s) is None ==> decoded(v, false)
                == DynamicView::Str(s)
        },
        v is Array || v is Object ==> decoded(v, false) == DynamicView::Str(
            crate::json::rendered(v),
        ),
{
    if v is String {
        let s = v->String_0;
        if !s.contains(' ') && crate::literal::is_float_literal(s) {
            crate::literal::law_literal_reads_back(s);
            crate::literal::lemma_literal_solid(s);
            lemma_solid_is_trimmed(s);
        }
    }
}

/// A literal has no white space to take off.
proof fn lemma_solid_is_trimmed(s: Seq<char>)
    requires
        crate::literal::is_float_literal(s),
    ensures
        whole_literal(s) == Some(s),
{
    crate::literal::law_literal_reads_back(s);
    crate::literal::lemma_literal_solid(s);
    assert(crate::literal::is_graphic(s[s.len() - 1]));
    assert(crate::text::trimmed_end(s) == s);
    assert(crate::literal::after_space(s) == s);
}

/// What a decoded literal is as a number: itself, its first component, the
/// literal that its text starts with, and zero where there is nothing.
pub proof fn law_decoded_reads_as_number(v: DynamicView)
    ensures
        v == DynamicView::Bool(true) ==> dynamic_scalar(v) == ScalarView::Whole(1),
        v == DynamicView::Bool(false) ==> dynamic_scalar(v) == ScalarView::Whole(0),
        v matches DynamicView::Int(i) ==> dynamic_scalar(v) == ScalarView::Whole(i),
        v matches DynamicView::Float(f) ==> dynamic_scalar(v) == f,
        v matches DynamicView::Str(s) ==> dynamic_scalar(v) == ScalarView::Text(
            crate::literal::read_literal(s),
        ),
        v matches DynamicView::Vec(c) ==> c.len() > 0 ==> dynamic_scalar(v) == c[0],
        v matches DynamicView::Vec(c) ==> c.len() == 0 ==> dynamic_scalar(v) == ScalarView::Whole(
            0,
        ),
        v matches DynamicView::Color(c) ==> dynamic_scalar(v) == c[0],
        v is Null ==> dynamic_scalar(v) == ScalarView::Whole(0),
{
}

/// A decoded literal as a flag: a flag is itself, a text counts by being a word
/// that means yes, nothing is no, and a number counts by not being zero.
pub proof fn law_decoded_reads_as_flag(v: &DynamicValue, nonzero: bool, r: bool)
    requires
        call_ensures(DynamicValue::as_bool, (v, nonzero), r),
    ensures
        v@ matches DynamicView::Bool(b) ==> r == b,
        v@ is Null ==> !r,
        v@ matches DynamicView::Str(s) ==> r == (s == "1"@ || s == "true"@ || s == "True"@ || s
            == "TRUE"@),
        v@ is Int || v@ is Float || v@ is Vec || v@ is Color ==> r == nonzero,
{
}

/// The string form of a literal: a text is itself, a flag its word, an integer
/// its digits, nothing is empty, and numbers stand as printed with spaces
/// between them.
pub proof fn law_string_forms(v: DynamicView, a: Seq<char>, b: Seq<char>)
    ensures
        v matches DynamicView::Str(s) ==> string_form(v, Seq::empty()) == s,
        string_form(DynamicView::Bool(true), Seq::empty()) == "true"@,
        string_form(DynamicView::Bool(false), Seq::empty()) == "false"@,
        string_form(DynamicView::Null, Seq::empty()).len() == 0,
        v matches DynamicView::Int(i) ==> string_form(v, Seq::empty()) == crate::json::decimal_int(
            i as int,
        ),
        v is Float ==> string_form(v, seq![a]) == a,
        v is Vec || v is Color ==> string_form(v, seq![a, b]) == a + " "@ + b,
{
    reveal_strlit(" ");
    reveal_with_fuel(crate::text::joined, 3);
    assert(seq![a, b].drop_last() =~= seq![a]);
    assert(crate::text::joined(seq![a], ' ') == a);
    assert(crate::text::joined(seq![a, b], ' ') =~= a + " "@ + b);
}

} // verus!
