//! Number literals at the head of a text, by the grammar of C's `strtod` and
//! `strtoll`.
use vstd::prelude::*;

use crate::text::{chars_of, slice_text};

verus! {

/// A decimal digit.
pub open spec fn is_digit(c: char) -> bool {
    '0' <= c && c <= '9'
}

/// A sign.
pub open spec fn is_sign(c: char) -> bool {
    c == '+' || c == '-'
}

/// White space in the C locale.
pub open spec fn is_c_space(c: char) -> bool {
    c == ' ' || c == '\t' || c == '\n' || c == '\x0b' || c == '\x0c' || c == '\r'
}

/// `s` without leading C white space.
pub open spec fn after_space(s: Seq<char>) -> Seq<char>
    decreases s.len(),
{
    if s.len() > 0 && is_c_space(s[0]) {
        after_space(s.drop_first())
    } else {
        s
    }
}

/// Every character is a digit.
pub open spec fn all_digits(s: Seq<char>) -> bool {
    forall|i: int| 0 <= i < s.len() ==> is_digit(#[trigger] s[i])
}

/// `s` without the sign it may start with.
pub open spec fn unsigned(s: Seq<char>) -> Seq<char> {
    if s.len() > 0 && is_sign(s[0]) {
        s.drop_first()
    } else {
        s
    }
}

/// Digits with at most one point among them and at least one digit.
pub open spec fn is_mantissa(s: Seq<char>) -> bool {
    ||| s.len() > 0 && all_digits(s)
    ||| exists|p: int| point_at(s, p)
}

/// The point of the mantissa `s` is at `p`.
pub open spec fn point_at(s: Seq<char>, p: int) -> bool {
    &&& 0 <= p < s.len()
    &&& s[p] == '.'
    &&& s.len() >= 2
    &&& all_digits(s.take(p))
    &&& all_digits(s.skip(p + 1))
}

/// The exponent mark of the number `s` is at `p`.
pub open spec fn exponent_at(s: Seq<char>, p: int) -> bool {
    &&& 0 < p < s.len()
    &&& (s[p] == 'e' || s[p] == 'E')
    &&& is_mantissa(s.take(p))
    &&& unsigned(s.skip(p + 1)).len() > 0
    &&& all_digits(unsigned(s.skip(p + 1)))
}

/// `c` is the lower-case letter `l` in either case.
pub open spec fn folds(c: char, l: char) -> bool {
    c == l || ('A' <= c && c <= 'Z' && c as u32 + 32 == l as u32)
}

/// `s` is the lower-case word `w` in any case.
pub open spec fn is_word(s: Seq<char>, w: Seq<char>) -> bool {
    s.len() == w.len() && forall|i: int| 0 <= i < s.len() ==> folds(#[trigger] s[i], w[i])
}

/// A word that names a number.
pub open spec fn is_special(s: Seq<char>) -> bool {
    is_word(s, "infinity"@) || is_word(s, "inf"@) || is_word(s, "nan"@)
}

/// A floating-point literal: an optional sign, then a word for an infinity or
/// for no number, or digits with an optional point and an optional exponent.
pub open spec fn is_float_literal(s: Seq<char>) -> bool {
    let u = unsigned(s);
    is_special(u) || is_mantissa(u) || exists|p: int| exponent_at(u, p)
}

/// The length of the longest literal among the first `n` characters, zero
/// when there is none.
pub open spec fn longest_literal(s: Seq<char>, n: nat) -> nat
    decreases n,
{
    if n == 0 {
        0
    } else if is_float_literal(s.take(n as int)) {
        n
    } else {
        longest_literal(s, (n - 1) as nat)
    }
}

/// The longest floating-point literal that `s` starts with; empty when there
/// is none.
pub open spec fn float_lead(s: Seq<char>) -> Seq<char> {
    s.take(longest_literal(s, s.len()) as int)
}

/// A bound on literal prefixes that is attained is the longest one.
proof fn lemma_longest(s: Seq<char>, v: nat, n: nat)
    requires
        v <= n <= s.len(),
        v == 0 || is_float_literal(s.take(v as int)),
        forall|k: int| v < k <= n ==> !is_float_literal(#[trigger] s.take(k)),
    ensures
        longest_literal(s, n) == v,
    decreases n,
{
    if n > v {
        lemma_longest(s, v, (n - 1) as nat);
    }
}

/// What [`float_lead`] finds is a literal (unless empty) and no longer prefix
/// is one.
pub proof fn law_float_lead_longest(s: Seq<char>)
    ensures
        crate::text::begins(s, float_lead(s)),
        float_lead(s).len() == 0 || is_float_literal(float_lead(s)),
        forall|k: int|
            float_lead(s).len() < k <= s.len() ==> !is_float_literal(#[trigger] s.take(k)),
{
    lemma_longest_maximal(s, s.len());
}

proof fn lemma_longest_maximal(s: Seq<char>, n: nat)
    requires
        n <= s.len(),
    ensures
        longest_literal(s, n) <= n,
        longest_literal(s, n) == 0 || is_float_literal(s.take(longest_literal(s, n) as int)),
        forall|k: int| longest_literal(s, n) < k <= n ==> !is_float_literal(#[trigger] s.take(k)),
    decreases n,
{
    if n > 0 && !is_float_literal(s.take(n as int)) {
        lemma_longest_maximal(s, (n - 1) as nat);
    }
}

/// A character of ASCII that shows and is no space.
pub open spec fn is_graphic(c: char) -> bool {
    0x21 <= c as u32 <= 0x7e
}

/// Nothing in a mantissa is white space.
proof fn lemma_mantissa_solid(s: Seq<char>)
    requires
        is_mantissa(s),
    ensures
        s.len() > 0,
        forall|i: int| 0 <= i < s.len() ==> is_graphic(#[trigger] s[i]),
{
    if !(s.len() > 0 && all_digits(s)) {
        let p = choose|p: int| point_at(s, p);
        assert forall|i: int| 0 <= i < s.len() implies is_graphic(#[trigger] s[i]) by {
            if i < p {
                assert(s.take(p)[i] == s[i]);
            } else if i > p {
                assert(s.skip(p + 1)[i - p - 1] == s[i]);
            }
        }
    }
}

/// Nothing in a literal is white space, and it is not empty.
pub proof fn lemma_literal_solid(s: Seq<char>)
    requires
        is_float_literal(s),
    ensures
        s.len() > 0,
        forall|i: int| 0 <= i < s.len() ==> !is_c_space(#[trigger] s[i]),
        forall|i: int| 0 <= i < s.len() ==> is_graphic(#[trigger] s[i]),
{
    let u = unsigned(s);
    assert(u.len() > 0 && forall|i: int| 0 <= i < u.len() ==> is_graphic(#[trigger] u[i])) by {
        if is_special(u) {
            reveal_strlit("infinity");
            reveal_strlit("inf");
            reveal_strlit("nan");
        } else if is_mantissa(u) {
            lemma_mantissa_solid(u);
        } else {
            let p = choose|p: int| exponent_at(u, p);
            lemma_mantissa_solid(u.take(p));
            let tail = u.skip(p + 1);
            assert forall|i: int| 0 <= i < u.len() implies is_graphic(#[trigger] u[i]) by {
                if i < p {
                    assert(u.take(p)[i] == u[i]);
                } else if i > p {
                    let k = i - p - 1;
                    assert(tail[k] == u[i]);
                    if is_sign(tail[0]) {
                        if k > 0 {
                            assert(unsigned(tail)[k - 1] == tail[k]);
                        }
                    } else {
                        assert(unsigned(tail)[k] == tail[k]);
                    }
                }
            }
        }
    }
    assert forall|i: int| 0 <= i < s.len() implies is_graphic(#[trigger] s[i]) by {
        if is_sign(s[0]) {
            if i > 0 {
                assert(u[i - 1] == s[i]);
            }
        } else {
            assert(u[i] == s[i]);
        }
    }
}

/// A literal is read from end to end.
pub proof fn law_literal_reads_back(s: Seq<char>)
    requires
        is_float_literal(s),
    ensures
        read_literal(s) == s,
{
    lemma_literal_solid(s);
    assert(after_space(s) == s);
    assert(s.take(s.len() as int) =~= s);
}

/// The digits of `s` from `from` end at `to`.
spec fn run_ends(s: Seq<char>, from: int, to: int) -> bool {
    &&& 0 <= from <= to <= s.len()
    &&& forall|i: int| from <= i < to ==> is_digit(#[trigger] s[i])
    &&& (to == s.len() || !is_digit(s[to]))
}

/// Where a mantissa that starts at `from` may end.
proof fn lemma_mantissa_end(s: Seq<char>, from: int, to: int, n: int)
    requires
        run_ends(s, from, to),
        from <= n <= s.len(),
        is_mantissa(s.subrange(from, n)),
    ensures
        from < n <= to || (to < n && s[to] == '.' && n - from >= 2 && forall|i: int|
            to < i < n ==> is_digit(#[trigger] s[i])),
{
    let u = s.subrange(from, n);
    if u.len() > 0 && all_digits(u) {
        if n > to {
            assert(is_digit(u[to - from]));
        }
    } else {
        let p = choose|p: int| point_at(u, p);
        assert(s[from + p] == '.');
        if from + p < to {
            assert(is_digit(s[from + p]));
        }
        if from + p > to {
            assert(u.take(p)[to - from] == s[to]);
            assert(is_digit(u.take(p)[to - from]));
        }
        assert forall|i: int| to < i < n implies is_digit(#[trigger] s[i]) by {
            assert(u.skip(p + 1)[i - to - 1] == s[i]);
        }
    }
}

/// The characters `[from, n)` are digits with the point at `to`.
proof fn lemma_is_mantissa(s: Seq<char>, from: int, to: int, n: int)
    requires
        run_ends(s, from, to),
        to <= n <= s.len(),
        (n == to && from < to) || (to < n && s[to] == '.' && n - from >= 2 && forall|i: int|
            to < i < n ==> is_digit(#[trigger] s[i])),
    ensures
        is_mantissa(s.subrange(from, n)),
{
    let u = s.subrange(from, n);
    if n > to {
        let p = to - from;
        assert(all_digits(u.take(p))) by {
            assert forall|i: int| 0 <= i < p implies is_digit(#[trigger] u.take(p)[i]) by {
                assert(u.take(p)[i] == s[from + i]);
            }
        }
        assert(all_digits(u.skip(p + 1))) by {
            assert forall|i: int| 0 <= i < n - to - 1 implies is_digit(#[trigger] u.skip(p + 1)[i]) by {
                assert(u.skip(p + 1)[i] == s[to + 1 + i]);
            }
        }
        assert(point_at(u, p));
    } else {
        assert(all_digits(u)) by {
            assert forall|i: int| 0 <= i < u.len() implies is_digit(#[trigger] u[i]) by {
                assert(u[i] == s[from + i]);
            }
        }
    }
}

/// The end of the digits that start at `from`.
fn digit_run(chars: &Vec<char>, from: usize) -> (to: usize)
    requires
        from <= chars@.len(),
    ensures
        run_ends(chars@, from as int, to as int),
{
    let mut to: usize = from;
    while to < chars.len() && '0' <= chars[to] && chars[to] <= '9'
        invariant
            from <= to <= chars@.len(),
            forall|i: int| from <= i < to ==> is_digit(#[trigger] chars@[i]),
        decreases chars@.len() - to,
    {
        to = to + 1;
    }
    to
}

/// Whether the word `w` stands at `from`, in any case.
fn word_at(chars: &Vec<char>, from: usize, w: &str) -> (r: bool)
    requires
        from <= chars@.len(),
    ensures
        r == (from + w@.len() <= chars@.len() && is_word(
            chars@.subrange(from as int, from + w@.len()),
            w@,
        )),
{
    let word = chars_of(w);
    let total = chars.len();
    if total - from < word.len() {
        return false;
    }
    let ghost part = chars@.subrange(from as int, from + w@.len());
    let mut i: usize = 0;
    while i < word.len()
        invariant
            i <= word@.len(),
            word@ == w@,
            total == chars@.len(),
            from + word@.len() <= total,
            part == chars@.subrange(from as int, from + w@.len()),
            forall|k: int| 0 <= k < i ==> folds(#[trigger] part[k], w@[k]),
        decreases word@.len() - i,
    {
        let c = chars[from + i];
        let l = word[i];
        assert(part[i as int] == c);
        let n: u32 = c as u32;
        if !(c == l || ('A' <= c && c <= 'Z' && n + 32 == l as u32)) {
            return false;
        }
        i = i + 1;
    }
    true
}

/// The length of the sign at the start.
fn sign_length(chars: &Vec<char>) -> (n: usize)
    ensures
        n <= chars@.len(),
        n <= 1,
        n == 1 <==> chars@.len() > 0 && is_sign(chars@[0]),
        unsigned(chars@) == chars@.skip(n as int),
        forall|k: int|
            n <= k <= chars@.len() ==> unsigned(#[trigger] chars@.take(k)) == chars@.subrange(n as int, k),
        n == 1 ==> unsigned(chars@.take(0)) == Seq::<char>::empty(),
{
    if chars.len() > 0 && (chars[0] == '+' || chars[0] == '-') {
        assert(chars@.skip(1) == chars@.drop_first());
        assert forall|k: int| 1 <= k <= chars@.len() implies unsigned(#[trigger] chars@.take(k))
            == chars@.subrange(1, k) by {
            assert(chars@.take(k)[0] == chars@[0]);
            assert(chars@.take(k).drop_first() == chars@.subrange(1, k));
        }
        assert(chars@.take(0) == Seq::<char>::empty());
        1
    } else {
        assert(chars@.skip(0) == chars@);
        assert forall|k: int| 0 <= k <= chars@.len() implies unsigned(#[trigger] chars@.take(k))
            == chars@.subrange(0, k) by {
            assert(chars@.take(k) == chars@.subrange(0, k));
            if k > 0 {
                assert(chars@.take(k)[0] == chars@[0]);
            }
        }
        0
    }
}

/// A literal that starts with a word for a number is that word.
proof fn lemma_word_literal(s: Seq<char>, k: int, w: Seq<char>)
    requires
        w == "infinity"@ || w == "inf"@ || w == "nan"@,
        w.len() <= k <= s.len(),
        is_word(s.take(w.len() as int), w),
        is_special(s.take(k)) || is_mantissa(s.take(k)) || exists|p: int| exponent_at(s.take(k), p),
    ensures
        w.len() < k ==> w == "inf"@ && k == 8 && is_word(s.take(k), "infinity"@),
{
    reveal_strlit("infinity");
    reveal_strlit("inf");
    reveal_strlit("nan");
    let u = s.take(k);
    assert(s.take(w.len() as int)[0] == s[0]);
    assert(folds(s[0], w[0]));
    assert(u[0] == s[0]);
    assert(!is_digit(s[0]) && s[0] != '.');
    if w.len() < k {
        if is_mantissa(u) {
            if all_digits(u) {
                assert(is_digit(u[0]));
            } else {
                let p = choose|p: int| point_at(u, p);
                if p > 0 {
                    assert(u.take(p)[0] == u[0]);
                }
            }
        }
        if exists|p: int| exponent_at(u, p) {
            let p = choose|p: int| exponent_at(u, p);
            let m = u.take(p);
            assert(m[0] == u[0]);
            if all_digits(m) {
                assert(is_digit(m[0]));
            } else {
                let q = choose|q: int| point_at(m, q);
                if q > 0 {
                    assert(m.take(q)[0] == m[0]);
                }
            }
        }
        assert(is_special(u));
        assert(is_word(u, "infinity"@));
        if w == "nan"@ {
            assert(folds(u[0], 'i'));
        }
    }
}

/// The length of the longest floating-point literal at the start.
fn literal_length(chars: &Vec<char>) -> (n: usize)
    ensures
        n <= chars@.len(),
        n == longest_literal(chars@, chars@.len()),
{
    let ghost s = chars@;
    let sign = sign_length(chars);
    let ghost rest = s.skip(sign as int);
    proof {
        reveal_strlit("infinity");
        reveal_strlit("inf");
        reveal_strlit("nan");
        assert forall|k: int| sign <= k <= s.len() implies s.subrange(sign as int, k) == rest.take(
            k - sign,
        ) by {}
    }
    if word_at(chars, sign, "infinity") {
        proof {
            lemma_special(s, sign as int, "infinity"@);
        }
        return sign + 8;
    }
    if word_at(chars, sign, "inf") {
        proof {
            assert(!(sign + 8 <= s.len() && is_word(s.subrange(sign as int, sign + 8), "infinity"@)));
            lemma_special(s, sign as int, "inf"@);
        }
        return sign + 3;
    }
    if word_at(chars, sign, "nan") {
        proof {
            lemma_special(s, sign as int, "nan"@);
        }
        return sign + 3;
    }
    proof {
        assert forall|k: int| sign <= k <= s.len() implies !is_special(#[trigger] s.subrange(sign as int, k)) by {
            let u = s.subrange(sign as int, k);
            if is_word(u, "infinity"@) {
                assert(k == sign + 8);
            }
            if is_word(u, "inf"@) {
                assert(k == sign + 3);
            }
            if is_word(u, "nan"@) {
                assert(k == sign + 3);
            }
        }
    }
    decimal_length(chars, sign)
}

/// No mantissa from `sign` on reaches past `valid`, and one that is followed
/// by anything but a digit or a point ends there.
spec fn mantissa_bound(s: Seq<char>, sign: int, valid: int) -> bool {
    forall|k: int|
        sign <= k <= s.len() && is_mantissa(#[trigger] s.subrange(sign, k)) ==> k <= valid && valid > 0
            && (k < s.len() && s[k] != '.' && !is_digit(s[k]) ==> k == valid)
}

/// The end of the longest mantissa that starts at `sign`, zero when there is
/// none.
fn mantissa_end(chars: &Vec<char>, sign: usize) -> (valid: usize)
    requires
        sign <= chars@.len(),
    ensures
        valid <= chars@.len(),
        valid == 0 || (sign < valid && is_mantissa(chars@.subrange(sign as int, valid as int))),
        mantissa_bound(chars@, sign as int, valid as int),
{
    let ghost s = chars@;
    let whole = digit_run(chars, sign);
    let mut valid: usize = if whole > sign {
        whole
    } else {
        0
    };
    if whole < chars.len() && chars[whole] == '.' {
        let fraction = digit_run(chars, whole + 1);
        if whole > sign || fraction > whole + 1 {
            valid = fraction;
        }
    }
    proof {
        if valid > 0 {
            lemma_is_mantissa(s, sign as int, whole as int, valid as int);
        }
        assert forall|k: int| sign <= k <= s.len() && is_mantissa(#[trigger] s.subrange(sign as int, k)) implies k
            <= valid && valid > 0 && (k < s.len() && s[k] != '.' && !is_digit(s[k]) ==> k == valid) by {
            lemma_mantissa_end(s, sign as int, whole as int, k);
        }
    }
    valid
}

/// The exponent of a number whose mantissa ends at `end` has its digits in
/// `[digits, stop)`.
spec fn exponent_scan(s: Seq<char>, end: int, digits: int, stop: int) -> bool {
    &&& 0 <= end < s.len()
    &&& (s[end] == 'e' || s[end] == 'E')
    &&& digits == if end + 1 < s.len() && is_sign(s[end + 1]) { end + 2 } else { end + 1 }
    &&& run_ends(s, digits, stop)
}

/// The scanned exponent completes a number.
proof fn lemma_is_exponent(s: Seq<char>, sign: int, end: int, digits: int, stop: int)
    requires
        0 <= sign < end,
        is_mantissa(s.subrange(sign, end)),
        exponent_scan(s, end, digits, stop),
        stop > digits,
    ensures
        exponent_at(s.subrange(sign, stop), end - sign),
{
    let u = s.subrange(sign, stop);
    let p = end - sign;
    let x = u.skip(p + 1);
    assert(u.take(p) == s.subrange(sign, end));
    assert(x == s.subrange(end + 1, stop));
    assert(x[0] == s[end + 1]);
    assert(unsigned(x) == s.subrange(digits, stop));
    assert forall|i: int| 0 <= i < unsigned(x).len() implies is_digit(#[trigger] unsigned(x)[i]) by {
        assert(unsigned(x)[i] == s[digits + i]);
    }
}

/// No number reaches past the scanned exponent.
proof fn lemma_exponent_end(s: Seq<char>, sign: int, end: int, k: int, p: int)
    requires
        0 <= sign <= k <= s.len(),
        0 <= end,
        mantissa_bound(s, sign, end),
        exponent_at(s.subrange(sign, k), p),
    ensures
        sign + p == end,
        end < k,
        s[end] == 'e' || s[end] == 'E',
        forall|digits: int, stop: int| #[trigger]
            exponent_scan(s, end, digits, stop) ==> k <= stop && stop > digits,
{
    let u = s.subrange(sign, k);
    let x = u.skip(p + 1);
    assert(u.take(p) == s.subrange(sign, sign + p));
    assert(s[sign + p] == u[p]);
    assert(sign + p == end);
    assert(x == s.subrange(end + 1, k));
    assert forall|digits: int, stop: int| #[trigger] exponent_scan(s, end, digits, stop) implies k <= stop
        && stop > digits by {
        if x.len() > 0 {
            assert(x[0] == s[end + 1]);
        }
        assert(unsigned(x) == s.subrange(digits, k));
        assert(unsigned(x)[0] == s[digits]);
        assert(is_digit(unsigned(x)[0]));
        if k > stop {
            assert(unsigned(x)[stop - digits] == s[stop]);
            assert(is_digit(unsigned(x)[stop - digits]));
        }
    }
}

/// The length of the longest literal at the start, when no word for a number
/// follows the sign.
fn decimal_length(chars: &Vec<char>, sign: usize) -> (valid: usize)
    requires
        sign <= 1,
        sign <= chars@.len(),
        forall|k: int|
            sign <= k <= chars@.len() ==> unsigned(#[trigger] chars@.take(k)) == chars@.subrange(
                sign as int,
                k,
            ),
        forall|k: int|
            sign <= k <= chars@.len() ==> !is_special(#[trigger] chars@.subrange(sign as int, k)),
        sign == 1 ==> unsigned(chars@.take(0)) == Seq::<char>::empty(),
    ensures
        valid <= chars@.len(),
        valid == longest_literal(chars@, chars@.len()),
{
    let ghost s = chars@;
    let end = mantissa_end(chars, sign);
    let mut valid: usize = end;
    proof {
        if end > 0 {
            assert(unsigned(s.take(end as int)) == s.subrange(sign as int, end as int));
        }
    }
    if end > 0 && end < chars.len() && (chars[end] == 'e' || chars[end] == 'E') {
        let mut digits: usize = end + 1;
        if digits < chars.len() && (chars[digits] == '+' || chars[digits] == '-') {
            digits = digits + 1;
        }
        let stop = digit_run(chars, digits);
        assert(exponent_scan(s, end as int, digits as int, stop as int));
        if stop > digits {
            valid = stop;
            proof {
                lemma_is_exponent(s, sign as int, end as int, digits as int, stop as int);
                assert(unsigned(s.take(stop as int)) == s.subrange(sign as int, stop as int));
            }
        }
    }
    proof {
        assert forall|k: int| valid < k <= s.len() implies !is_float_literal(#[trigger] s.take(k)) by {
            if k >= sign {
                let u = s.subrange(sign as int, k);
                assert(unsigned(s.take(k)) == u);
                if exists|p: int| exponent_at(u, p) {
                    let p = choose|p: int| exponent_at(u, p);
                    lemma_exponent_end(s, sign as int, end as int, k, p);
                }
            }
        }
        lemma_longest(s, valid as nat, s.len());
    }
    valid
}

/// A word for a number after the sign is the longest literal.
proof fn lemma_special(s: Seq<char>, sign: int, w: Seq<char>)
    requires
        0 <= sign <= 1,
        sign <= s.len(),
        sign == 1 <==> s.len() > 0 && is_sign(s[0]),
        w == "infinity"@ || w == "inf"@ || w == "nan"@,
        sign + w.len() <= s.len(),
        is_word(s.subrange(sign, sign + w.len()), w),
        forall|k: int| sign <= k <= s.len() ==> unsigned(#[trigger] s.take(k)) == s.subrange(sign, k),
        w == "inf"@ ==> !(sign + 8 <= s.len() && is_word(s.subrange(sign, sign + 8), "infinity"@)),
    ensures
        longest_literal(s, s.len()) == sign + w.len(),
{
    let rest = s.skip(sign);
    let n = sign + w.len();
    assert(unsigned(s.take(n)) == s.subrange(sign, n));
    assert(rest.take(w.len() as int) == s.subrange(sign, n));
    assert forall|k: int| n < k <= s.len() implies !is_float_literal(#[trigger] s.take(k)) by {
        assert(unsigned(s.take(k)) == s.subrange(sign, k));
        assert(s.subrange(sign, k) == rest.take(k - sign));
        if is_float_literal(s.take(k)) {
            lemma_word_literal(rest, k - sign, w);
            reveal_strlit("inf");
            assert(k - sign == 8);
            assert(rest.take(8) == s.subrange(sign, sign + 8));
        }
    }
    lemma_longest(s, n as nat, s.len());
}

/// The number of characters of C white space at the start.
pub fn c_space_length(chars: &Vec<char>) -> (n: usize)
    ensures
        n <= chars@.len(),
        after_space(chars@) == chars@.skip(n as int),
{
    let mut n: usize = 0;
    assert(chars@.skip(0) == chars@);
    while n < chars.len() && (chars[n] == ' ' || chars[n] == '\t' || chars[n] == '\n' || chars[n]
        == '\x0b' || chars[n] == '\x0c' || chars[n] == '\r')
        invariant
            n <= chars@.len(),
            after_space(chars@) == after_space(chars@.skip(n as int)),
        decreases chars@.len() - n,
    {
        assert(chars@.skip(n as int).drop_first() == chars@.skip(n as int + 1));
        n = n + 1;
    }
    n
}

/// Skip the white space of the C locale.
pub fn skip_c_whitespace(s: &str) -> (r: String)
    ensures
        r@ == after_space(s@),
{
    let chars = chars_of(s);
    let n = c_space_length(&chars);
    let r = slice_text(&chars, n, chars.len());
    assert(chars@.skip(n as int) == chars@.subrange(n as int, chars@.len() as int));
    r
}

/// The longest prefix of `s` that is a floating-point literal.
pub fn float_prefix(s: &str) -> (r: String)
    ensures
        r@ == float_lead(s@),
{
    let chars = chars_of(s);
    let n = literal_length(&chars);
    let r = slice_text(&chars, 0, n);
    assert(chars@.take(n as int) == chars@.subrange(0, n as int));
    r
}

/// The literal that C's `strtod` reads: past white space, the longest one.
pub open spec fn read_literal(s: Seq<char>) -> Seq<char> {
    float_lead(after_space(s))
}

/// The literal that C's `strtod` reads at the start of `s`.
pub fn leading_literal(s: &str) -> (r: String)
    ensures
        r@ == read_literal(s@),
{
    let rest = skip_c_whitespace(s);
    float_prefix(rest.as_str())
}

/// The number of digits at the start.
pub open spec fn digit_count(s: Seq<char>) -> nat
    decreases s.len(),
{
    if s.len() > 0 && is_digit(s[0]) {
        1 + digit_count(s.drop_first())
    } else {
        0
    }
}

/// The longest prefix of `s` that is an optional sign and digits; empty when
/// no digit follows the sign.
pub open spec fn int_lead(s: Seq<char>) -> Seq<char> {
    let sign: nat = if s.len() > 0 && is_sign(s[0]) { 1 } else { 0 };
    let n = digit_count(s.skip(sign as int));
    if n == 0 {
        Seq::empty()
    } else {
        s.take((sign + n) as int)
    }
}

proof fn lemma_digit_count(s: Seq<char>, from: int, to: int)
    requires
        run_ends(s, from, to),
    ensures
        digit_count(s.skip(from)) == to - from,
    decreases to - from,
{
    if from < to {
        assert(s.skip(from)[0] == s[from]);
        assert(s.skip(from).drop_first() == s.skip(from + 1));
        lemma_digit_count(s, from + 1, to);
    } else if from < s.len() {
        assert(s.skip(from)[0] == s[from]);
    }
}

/// The longest prefix of `s` that is an optional sign and digits.
pub fn int_prefix(s: &str) -> (r: String)
    ensures
        r@ == int_lead(s@),
{
    let chars = chars_of(s);
    let sign = sign_length(&chars);
    let end = digit_run(&chars, sign);
    proof {
        lemma_digit_count(chars@, sign as int, end as int);
    }
    if end == sign {
        String::new()
    } else {
        let r = slice_text(&chars, 0, end);
        assert(chars@.take(end as int) == chars@.subrange(0, end as int));
        r
    }
}

/// The value of a sequence of decimal digits.
pub open spec fn digits_value(s: Seq<char>) -> nat
    decreases s.len(),
{
    if s.len() == 0 {
        0
    } else {
        10 * digits_value(s.drop_last()) + (s.last() as u32 - '0' as u32) as nat
    }
}

/// The value of an optional sign and digits.
pub open spec fn int_value(s: Seq<char>) -> int {
    if s.len() > 0 && s[0] == '-' {
        -(digits_value(unsigned(s)) as int)
    } else {
        digits_value(unsigned(s)) as int
    }
}

/// The integer at the start of `s`, past white space; zero when there is none.
pub open spec fn leading_int(s: Seq<char>) -> int {
    int_value(int_lead(after_space(s)))
}

/// A number brought between two others.
pub open spec fn clamped(v: int, low: int, high: int) -> int {
    if v < low {
        low
    } else if v > high {
        high
    } else {
        v
    }
}

/// The integer C's `strtol` reads: brought into the range of `i64`, zero when
/// there is none.
pub open spec fn clamped_int(s: Seq<char>) -> i64 {
    clamped(leading_int(s), i64::MIN as int, i64::MAX as int) as i64
}

/// The integer at the start of `s`, zero when there is none or when it does
/// not fit in `i64`.
pub open spec fn read_int(s: Seq<char>) -> i64 {
    let v = leading_int(s);
    if i64::MIN <= v <= i64::MAX {
        v as i64
    } else {
        0
    }
}

proof fn lemma_digits_grow(s: Seq<char>, n: int)
    requires
        all_digits(s),
        0 <= n <= s.len(),
    ensures
        digits_value(s.take(n)) <= digits_value(s),
    decreases s.len() - n,
{
    if n < s.len() {
        lemma_digits_grow(s, n + 1);
        assert(s.take(n + 1).drop_last() == s.take(n));
        assert(s.take(n + 1).last() == s[n]);
        assert(is_digit(s[n]));
    } else {
        assert(s.take(n) == s);
    }
}

/// A magnitude past that of every `i64`.
const WIDE_LIMIT: i128 = 0x1_0000_0000_0000_0000;

/// The integer at the start of `s`, brought between two bounds beyond the
/// range of `i64`.
fn wide_int(s: &str) -> (r: i128)
    ensures
        r == clamped(leading_int(s@), -WIDE_LIMIT as int, WIDE_LIMIT as int),
{
    let rest = skip_c_whitespace(s);
    let prefix = int_prefix(rest.as_str());
    let chars = chars_of(prefix.as_str());
    let sign = sign_length(&chars);
    let end = digit_run(&chars, sign);
    let ghost digits = chars@.skip(sign as int);
    proof {
        let t = after_space(s@);
        let n = digit_count(t.skip(sign as int));
        lemma_count_digits(t, if t.len() > 0 && is_sign(t[0]) { 1 } else { 0 });
        if chars@.len() > 0 {
            assert(chars@[0] == t[0]);
        }
        assert(all_digits(digits)) by {
            assert forall|i: int| 0 <= i < digits.len() implies is_digit(#[trigger] digits[i]) by {
                assert(digits[i] == t[sign + i]);
            }
        }
        if end < chars@.len() {
            assert(is_digit(digits[end - sign]));
        }
    }
    let negative = chars.len() > 0 && chars[0] == '-';
    let mut value: i128 = 0;
    let mut i: usize = sign;
    assert(digits.take(0) == Seq::<char>::empty());
    while i < end
        invariant
            sign <= i <= end,
            end == chars@.len(),
            digits == chars@.skip(sign as int),
            all_digits(digits),
            unsigned(chars@) == digits,
            chars@ == int_lead(after_space(s@)),
            value == digits_value(digits.take(i - sign)),
            value < WIDE_LIMIT,
            negative == (chars@.len() > 0 && chars@[0] == '-'),
        decreases end - i,
    {
        let c = chars[i];
        assert(digits[i - sign] == c);
        assert(is_digit(digits[i - sign]));
        let d: u32 = c as u32 - '0' as u32;
        assert(digits.take(i - sign + 1).drop_last() == digits.take(i - sign));
        assert(digits.take(i - sign + 1).last() == c);
        value = value * 10 + d as i128;
        if value >= WIDE_LIMIT {
            proof {
                lemma_digits_grow(digits, i - sign + 1);
                assert(unsigned(chars@) == digits);
            }
            return if negative {
                -WIDE_LIMIT
            } else {
                WIDE_LIMIT
            };
        }
        i = i + 1;
    }
    proof {
        assert(digits.take(end - sign) == digits);
        assert(unsigned(chars@) == digits);
    }
    if negative {
        -value
    } else {
        value
    }
}

/// Read an integer in base ten like C's `strtol`: brought into the range of
/// `i64`, zero when there is none.
pub fn strtoi(s: &str) -> (r: i64)
    ensures
        r == clamped_int(s@),
{
    let v = wide_int(s);
    if v < -0x8000_0000_0000_0000 {
        i64::MIN
    } else if v > 0x7fff_ffff_ffff_ffff {
        i64::MAX
    } else {
        v as i64
    }
}

/// Read an integer in base ten, zero when there is none or when it does not
/// fit in `i64`.
pub fn int_or_zero(s: &str) -> (r: i64)
    ensures
        r == read_int(s@),
{
    let v = wide_int(s);
    if -0x8000_0000_0000_0000 <= v && v <= 0x7fff_ffff_ffff_ffff {
        v as i64
    } else {
        0
    }
}

/// Whether past white space there is an integer at the start.
pub fn has_int(s: &str) -> (r: bool)
    ensures
        r == (int_lead(after_space(s@)).len() > 0),
{
    let rest = skip_c_whitespace(s);
    let prefix = int_prefix(rest.as_str());
    let chars = chars_of(prefix.as_str());
    chars.len() > 0
}

proof fn lemma_count_digits(s: Seq<char>, from: int)
    requires
        0 <= from <= s.len(),
    ensures
        from + digit_count(s.skip(from)) <= s.len(),
        forall|i: int| from <= i < from + digit_count(s.skip(from)) ==> is_digit(#[trigger] s[i]),
    decreases s.len() - from,
{
    let t = s.skip(from);
    if t.len() > 0 && is_digit(t[0]) {
        assert(t.drop_first() == s.skip(from + 1));
        assert(t[0] == s[from]);
        lemma_count_digits(s, from + 1);
    }
}

/// `s` without any leading signs.
pub open spec fn after_signs(s: Seq<char>) -> Seq<char>
    decreases s.len(),
{
    if s.len() > 0 && is_sign(s[0]) {
        after_signs(s.drop_first())
    } else {
        s
    }
}

/// Whether a literal names an infinity, as opposed to being out of range.
pub fn is_infinity_token(prefix: &str) -> (r: bool)
    ensures
        r == (is_word(after_signs(prefix@), "inf"@) || is_word(after_signs(prefix@), "infinity"@)),
{
    let chars = chars_of(prefix);
    let mut n: usize = 0;
    assert(chars@.skip(0) == chars@);
    while n < chars.len() && (chars[n] == '+' || chars[n] == '-')
        invariant
            n <= chars@.len(),
            after_signs(chars@) == after_signs(chars@.skip(n as int)),
        decreases chars@.len() - n,
    {
        assert(chars@.skip(n as int).drop_first() == chars@.skip(n as int + 1));
        n = n + 1;
    }
    let ghost rest = chars@.skip(n as int);
    proof {
        reveal_strlit("inf");
        reveal_strlit("infinity");
        assert(after_signs(chars@) == rest);
        if rest.len() == 3 {
            assert(rest == chars@.subrange(n as int, n + 3));
        }
        if rest.len() == 8 {
            assert(rest == chars@.subrange(n as int, n + 8));
        }
    }
    let left: usize = chars.len() - n;
    (left == 3 && word_at(&chars, n, "inf")) || (left == 8 && word_at(&chars, n, "infinity"))
}

/// Digits are read as the number that they write, with or without a sign, up to
/// what is no digit; a minus makes it negative. Past the range of `i64`,
/// [`read_int`] gives zero and [`clamped_int`] the bound.
pub proof fn law_digits_read_as_number(d: Seq<char>, rest: Seq<char>)
    requires
        d.len() > 0,
        all_digits(d),
        rest.len() == 0 || !is_digit(rest[0]),
    ensures
        leading_int(d + rest) == digits_value(d),
        leading_int(seq!['+'] + d + rest) == digits_value(d),
        leading_int(seq!['-'] + d + rest) == -(digits_value(d) as int),
        digits_value(d) <= i64::MAX ==> read_int(d + rest) == digits_value(d) && clamped_int(
            d + rest,
        ) == digits_value(d),
        digits_value(d) > i64::MAX ==> read_int(d + rest) == 0 && clamped_int(d + rest)
            == i64::MAX,
        digits_value(d) <= i64::MAX ==> read_int(seq!['-'] + d + rest) == -(digits_value(d) as int)
            && clamped_int(seq!['-'] + d + rest) == -(digits_value(d) as int),
        digits_value(d) > i64::MAX + 1 ==> read_int(seq!['-'] + d + rest) == 0 && clamped_int(
            seq!['-'] + d + rest,
        ) == i64::MIN,
        forall|c: char|
            #![trigger d.push(c)]
            is_digit(c) ==> digits_value(d.push(c)) == 10 * digits_value(d) + (c as u32
                - '0' as u32),
        digits_value(Seq::empty()) == 0,
{
    lemma_lead_of_digits(d, rest, Seq::empty());
    lemma_lead_of_digits(d, rest, seq!['+']);
    lemma_lead_of_digits(d, rest, seq!['-']);
    assert(Seq::<char>::empty() + d + rest =~= d + rest);
    assert(is_digit(d[0]));
    assert((Seq::<char>::empty() + d) =~= d);
    assert((seq!['+'] + d).drop_first() =~= d);
    assert((seq!['-'] + d).drop_first() =~= d);
    assert forall|c: char| #![trigger d.push(c)] is_digit(c) implies digits_value(d.push(c)) == 10
        * digits_value(d) + (c as u32 - '0' as u32) by {
        assert(d.push(c).drop_last() =~= d);
    }
}

/// A sign and digits are what a number starts with, up to what is no digit.
proof fn lemma_lead_of_digits(d: Seq<char>, rest: Seq<char>, sign: Seq<char>)
    requires
        d.len() > 0,
        all_digits(d),
        rest.len() == 0 || !is_digit(rest[0]),
        sign.len() <= 1,
        forall|i: int| 0 <= i < sign.len() ==> is_sign(#[trigger] sign[i]),
    ensures
        after_space(sign + d + rest) == sign + d + rest,
        int_lead(sign + d + rest) == sign + d,
{
    let s = sign + d + rest;
    let from = sign.len() as int;
    let to = (sign.len() + d.len()) as int;
    assert(is_digit(d[0]));
    if sign.len() > 0 {
        assert(is_sign(sign[0]));
        assert(s[0] == sign[0]);
    } else {
        assert(s[0] == d[0]);
    }
    assert(run_ends(s, from, to)) by {
        assert forall|i: int| from <= i < to implies is_digit(#[trigger] s[i]) by {
            assert(s[i] == d[i - from]);
        }
        if to < s.len() {
            assert(s[to] == rest[0]);
        }
    }
    lemma_digit_count(s, from, to);
    assert(s.take(to) =~= sign + d);
}

/// White space ahead of a number does not count.
pub proof fn law_space_ahead_is_skipped(c: char, s: Seq<char>)
    requires
        is_c_space(c),
    ensures
        after_space(seq![c] + s) == after_space(s),
        leading_int(seq![c] + s) == leading_int(s),
        read_literal(seq![c] + s) == read_literal(s),
{
    assert((seq![c] + s).drop_first() =~= s);
}

} // verus!
