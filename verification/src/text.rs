//! Character-level helpers: every string rule of the scene formats is stated
//! over the sequence of characters of a string.
use vstd::prelude::*;

verus! {

/// `String::push` appends one character.
pub assume_specification[ std::string::String::push ](s: &mut std::string::String, c: char)
    ensures
        final(s)@ == old(s)@.push(c),
;

/// The characters of `s`, in order.
pub fn chars_of(s: &str) -> (out: Vec<char>)
    ensures
        out@ == s@,
{
    let mut out: Vec<char> = Vec::new();
    for c in it: s.chars()
        invariant
            it.seq() == s@,
            out@ == s@.take(it.index() as int),
    {
        out.push(c);
        assert(s@.take(it.index() as int + 1) == s@.take(it.index() as int).push(c));
    }
    assert(s@.take(s@.len() as int) == s@);
    out
}

/// Whether two strings hold the same characters.
pub fn same(a: &str, b: &str) -> (r: bool)
    ensures
        r == (a@ == b@),
{
    let x = a.as_bytes();
    let y = b.as_bytes();
    proof {
        vstd::utf8::encode_utf8_decode_utf8(a@);
        vstd::utf8::encode_utf8_decode_utf8(b@);
    }
    if x.len() != y.len() {
        return false;
    }
    let mut i: usize = 0;
    while i < x.len()
        invariant
            i <= x.len(),
            x.len() == y.len(),
            x@ == vstd::utf8::encode_utf8(a@),
            y@ == vstd::utf8::encode_utf8(b@),
            x@.take(i as int) == y@.take(i as int),
        decreases x.len() - i,
    {
        if x[i] != y[i] {
            assert(vstd::utf8::encode_utf8(a@)[i as int] != vstd::utf8::encode_utf8(b@)[i as int]);
            return false;
        }
        assert(x@.take(i as int + 1) == x@.take(i as int).push(x[i as int]));
        assert(y@.take(i as int + 1) == y@.take(i as int).push(y[i as int]));
        i = i + 1;
    }
    assert(x@.take(x@.len() as int) == x@);
    assert(y@.take(y@.len() as int) == y@);
    true
}

/// The string made of `chars[from..to]`.
pub fn slice_text(chars: &Vec<char>, from: usize, to: usize) -> (out: String)
    requires
        from <= to <= chars@.len(),
    ensures
        out@ == chars@.subrange(from as int, to as int),
{
    let mut out = String::new();
    let mut i: usize = from;
    while i < to
        invariant
            from <= i <= to <= chars@.len(),
            out@ == chars@.subrange(from as int, i as int),
        decreases to - i,
    {
        out.push(chars[i]);
        assert(chars@.subrange(from as int, i as int + 1) == chars@.subrange(
            from as int,
            i as int,
        ).push(chars@[i as int]));
        i = i + 1;
    }
    out
}

/// `text` begins with `prefix`.
pub open spec fn begins(text: Seq<char>, prefix: Seq<char>) -> bool {
    prefix.len() <= text.len() && text.take(prefix.len() as int) == prefix
}

/// Whether `text` begins with `prefix`.
pub fn starts_with(text: &str, prefix: &str) -> (r: bool)
    ensures
        r == begins(text@, prefix@),
{
    let t = chars_of(text);
    let p = chars_of(prefix);
    if t.len() < p.len() {
        return false;
    }
    let mut i: usize = 0;
    while i < p.len()
        invariant
            i <= p.len() <= t.len(),
            t@ == text@,
            p@ == prefix@,
            forall|k: int| 0 <= k < i ==> t@[k] == p@[k],
        decreases p.len() - i,
    {
        if t[i] != p[i] {
            assert(text@.take(prefix@.len() as int)[i as int] != prefix@[i as int]);
            return false;
        }
        i = i + 1;
    }
    assert(text@.take(prefix@.len() as int) == prefix@);
    true
}

/// The pieces between the separators of `s`: one more than there are
/// separators, empty pieces kept.
pub open spec fn pieces(s: Seq<char>, sep: char) -> Seq<Seq<char>>
    decreases s.len(),
{
    if s.len() == 0 {
        seq![Seq::<char>::empty()]
    } else {
        let before = pieces(s.drop_last(), sep);
        if s.last() == sep {
            before.push(Seq::<char>::empty())
        } else {
            before.drop_last().push(before.last().push(s.last()))
        }
    }
}

/// The pieces put back together with separators between them.
pub open spec fn joined(parts: Seq<Seq<char>>, sep: char) -> Seq<char>
    decreases parts.len(),
{
    if parts.len() == 0 {
        Seq::empty()
    } else if parts.len() == 1 {
        parts[0]
    } else {
        joined(parts.drop_last(), sep).push(sep) + parts.last()
    }
}

/// A text without the separator goes to the last piece of what it follows.
proof fn lemma_pieces_append(s: Seq<char>, t: Seq<char>, sep: char)
    requires
        !t.contains(sep),
    ensures
        pieces(s, sep).len() >= 1,
        pieces(s + t, sep) == pieces(s, sep).drop_last().push(pieces(s, sep).last() + t),
    decreases t.len(),
{
    law_pieces_rejoin(s, sep);
    if t.len() == 0 {
        assert(s + t =~= s);
        assert(pieces(s, sep).last() + t =~= pieces(s, sep).last());
    } else {
        let u = t.drop_last();
        assert(t.last() != sep) by {
            assert(t[t.len() - 1] == t.last());
        }
        assert(!u.contains(sep)) by {
            if u.contains(sep) {
                let k = choose|k: int| 0 <= k < u.len() && u[k] == sep;
                assert(t[k] == sep);
            }
        }
        lemma_pieces_append(s, u, sep);
        assert((s + t).drop_last() =~= s + u);
        assert((s + t).last() == t.last());
        assert((pieces(s, sep).last() + u).push(t.last()) =~= pieces(s, sep).last() + t);
    }
}

/// Splitting undoes joining, where no part holds the separator and there is at
/// least one.
pub proof fn law_joined_splits(parts: Seq<Seq<char>>, sep: char)
    requires
        parts.len() >= 1,
        forall|i: int| 0 <= i < parts.len() ==> !(#[trigger] parts[i]).contains(sep),
    ensures
        pieces(joined(parts, sep), sep) == parts,
    decreases parts.len(),
{
    let last = parts.last();
    assert(last == parts[parts.len() - 1]);
    if parts.len() == 1 {
        lemma_pieces_append(Seq::empty(), last, sep);
        assert(Seq::<char>::empty() + last =~= last);
    } else {
        let before = parts.drop_last();
        let head = joined(before, sep).push(sep);
        assert forall|i: int| 0 <= i < before.len() implies !(#[trigger] before[i]).contains(sep) by {
            assert(before[i] == parts[i]);
        }
        law_joined_splits(before, sep);
        assert(head.drop_last() =~= joined(before, sep));
        assert(pieces(head, sep) == before.push(Seq::<char>::empty()));
        lemma_pieces_append(head, last, sep);
        assert(Seq::<char>::empty() + last =~= last);
        assert(before.push(Seq::<char>::empty()).drop_last() =~= before);
        assert(before.push(last) =~= parts);
    }
}

/// Splitting loses nothing: the pieces joined by the separator are the text
/// again, no piece holds the separator, and there is always at least one.
pub proof fn law_pieces_rejoin(s: Seq<char>, sep: char)
    ensures
        joined(pieces(s, sep), sep) == s,
        pieces(s, sep).len() >= 1,
        forall|i: int| 0 <= i < pieces(s, sep).len() ==> !(#[trigger] pieces(s, sep)[i]).contains(sep),
    decreases s.len(),
{
    if s.len() > 0 {
        law_pieces_rejoin(s.drop_last(), sep);
        let before = pieces(s.drop_last(), sep);
        let after = pieces(s, sep);
        assert(s == s.drop_last().push(s.last()));
        if s.last() == sep {
            assert(after.drop_last() == before);
            assert(after.last() == Seq::<char>::empty());
            assert(joined(after, sep) == joined(before, sep).push(sep));
        } else {
            assert(after.drop_last() == before.drop_last());
            assert(after.last() == before.last().push(s.last()));
            if before.len() == 1 {
                assert(joined(after, sep) == s);
            } else {
                assert(joined(after, sep) == joined(before.drop_last(), sep).push(sep) + before.last().push(
                    s.last(),
                ));
                assert(joined(after, sep) == joined(before, sep).push(s.last()));
            }
            assert forall|i: int| 0 <= i < after.len() implies !(#[trigger] after[i]).contains(sep) by {
                if i == after.len() - 1 {
                    let piece = before.last();
                    assert(!before[before.len() - 1].contains(sep));
                    assert(after[i] == piece.push(s.last()));
                    if after[i].contains(sep) {
                        let k = choose|k: int| 0 <= k < after[i].len() && after[i][k] == sep;
                        assert(k < piece.len());
                        assert(piece[k] == sep);
                    }
                } else {
                    assert(after[i] == before[i]);
                }
            }
        }
    } else {
        assert(joined(pieces(s, sep), sep) == s);
    }
}

/// The views of a list of strings.
pub open spec fn texts(v: Seq<String>) -> Seq<Seq<char>> {
    Seq::new(v.len(), |i: int| v[i]@)
}

/// Split `s` at every `sep`, keeping empty pieces.
pub fn split_on(s: &str, sep: char) -> (out: Vec<String>)
    ensures
        texts(out@) == pieces(s@, sep),
        out@.len() >= 1,
{
    let chars = chars_of(s);
    let mut out: Vec<String> = Vec::new();
    let mut piece = String::new();
    let mut i: usize = 0;
    assert(texts(out@).push(piece@) == pieces(s@.take(0), sep));
    while i < chars.len()
        invariant
            i <= chars.len(),
            chars@ == s@,
            texts(out@).push(piece@) == pieces(s@.take(i as int), sep),
        decreases chars.len() - i,
    {
        let c = chars[i];
        let ghost before = pieces(s@.take(i as int), sep);
        let ghost shown = texts(out@);
        assert(s@.take(i as int + 1).drop_last() == s@.take(i as int));
        assert(s@.take(i as int + 1).last() == c);
        assert(before.drop_last() == shown);
        if c == sep {
            out.push(piece);
            piece = String::new();
            assert(texts(out@) == before);
        } else {
            piece.push(c);
        }
        i = i + 1;
    }
    assert(s@.take(s@.len() as int) == s@);
    let ghost shown = texts(out@);
    let ghost last = piece@;
    out.push(piece);
    assert(texts(out@) == shown.push(last));
    out
}

/// The parts put together with `sep` between them.
pub fn join(parts: &Vec<String>, sep: char) -> (out: String)
    ensures
        out@ == joined(texts(parts@), sep),
{
    let mut out = String::new();
    let ghost all = texts(parts@);
    let mut i: usize = 0;
    assert(all.take(0).len() == 0);
    while i < parts.len()
        invariant
            i <= parts@.len(),
            all == texts(parts@),
            out@ == joined(all.take(i as int), sep),
        decreases parts@.len() - i,
    {
        let ghost head = all.take(i as int + 1);
        assert(head.drop_last() == all.take(i as int));
        assert(head.last() == parts@[i as int]@);
        if i > 0 {
            out.push(sep);
        } else {
            assert(out@ + head.last() == head[0]);
        }
        out.append(parts[i].as_str());
        i = i + 1;
    }
    assert(all.take(all.len() as int) == all);
    out
}

/// `s` with every `from` replaced by `to`.
pub open spec fn replaced(s: Seq<char>, from: char, to: char) -> Seq<char> {
    s.map_values(|c: char| if c == from { to } else { c })
}

/// Replace every `from` in `s` by `to`.
pub fn replace_char(s: &str, from: char, to: char) -> (out: String)
    ensures
        out@ == replaced(s@, from, to),
{
    let chars = chars_of(s);
    let mut out = String::new();
    let mut i: usize = 0;
    while i < chars.len()
        invariant
            i <= chars.len(),
            chars@ == s@,
            out@ == replaced(s@.take(i as int), from, to),
        decreases chars.len() - i,
    {
        let c = chars[i];
        out.push(if c == from { to } else { c });
        assert(s@.take(i as int + 1) == s@.take(i as int).push(c));
        assert(replaced(s@.take(i as int + 1), from, to) == replaced(s@.take(i as int), from, to).push(
            if c == from { to } else { c },
        ));
        i = i + 1;
    }
    assert(s@.take(s@.len() as int) == s@);
    out
}

/// Whether `c` occurs in `s`.
pub fn contains_char(s: &str, c: char) -> (r: bool)
    ensures
        r == s@.contains(c),
{
    let chars = chars_of(s);
    let mut i: usize = 0;
    while i < chars.len()
        invariant
            i <= chars.len(),
            chars@ == s@,
            forall|k: int| 0 <= k < i ==> s@[k] != c,
        decreases chars.len() - i,
    {
        if chars[i] == c {
            assert(s@[i as int] == c);
            return true;
        }
        i = i + 1;
    }
    false
}

/// The characters Unicode calls white space.
pub open spec fn is_white(c: char) -> bool {
    let n = c as u32;
    9 <= n <= 13 || n == 0x20 || n == 0x85 || n == 0xa0 || n == 0x1680 || 0x2000 <= n <= 0x200a || n
        == 0x2028 || n == 0x2029 || n == 0x202f || n == 0x205f || n == 0x3000
}

/// Whether `c` is Unicode white space.
pub fn white(c: char) -> (r: bool)
    ensures
        r == is_white(c),
{
    let n: u32 = c as u32;
    (9 <= n && n <= 13) || n == 0x20 || n == 0x85 || n == 0xa0 || n == 0x1680 || (0x2000 <= n && n
        <= 0x200a) || n == 0x2028 || n == 0x2029 || n == 0x202f || n == 0x205f || n == 0x3000
}

/// `s` without its leading white space.
pub open spec fn trimmed_start(s: Seq<char>) -> Seq<char>
    decreases s.len(),
{
    if s.len() > 0 && is_white(s[0]) {
        trimmed_start(s.drop_first())
    } else {
        s
    }
}

/// `s` without its trailing white space.
pub open spec fn trimmed_end(s: Seq<char>) -> Seq<char>
    decreases s.len(),
{
    if s.len() > 0 && is_white(s.last()) {
        trimmed_end(s.drop_last())
    } else {
        s
    }
}

/// `s` without white space at either end.
pub open spec fn trimmed(s: Seq<char>) -> Seq<char> {
    trimmed_end(trimmed_start(s))
}

/// The index at which the text of `chars[from..]` starts once leading white
/// space is skipped.
pub fn skip_white(chars: &Vec<char>) -> (n: usize)
    ensures
        n <= chars@.len(),
        trimmed_start(chars@) == chars@.skip(n as int),
{
    let mut n: usize = 0;
    assert(chars@.skip(0) == chars@);
    while n < chars.len() && white(chars[n])
        invariant
            n <= chars@.len(),
            trimmed_start(chars@) == trimmed_start(chars@.skip(n as int)),
        decreases chars.len() - n,
    {
        assert(chars@.skip(n as int).drop_first() == chars@.skip(n as int + 1));
        n = n + 1;
    }
    n
}

/// The end of `chars[from..]` once trailing white space is dropped.
pub fn drop_white(chars: &Vec<char>, from: usize) -> (n: usize)
    requires
        from <= chars@.len(),
    ensures
        from <= n <= chars@.len(),
        trimmed_end(chars@.skip(from as int)) == chars@.subrange(from as int, n as int),
{
    let mut n: usize = chars.len();
    assert(chars@.skip(from as int) == chars@.subrange(from as int, n as int));
    while n > from && white(chars[n - 1])
        invariant
            from <= n <= chars@.len(),
            trimmed_end(chars@.skip(from as int)) == trimmed_end(
                chars@.subrange(from as int, n as int),
            ),
        decreases n,
    {
        assert(chars@.subrange(from as int, n as int).drop_last() == chars@.subrange(
            from as int,
            n - 1,
        ));
        n = n - 1;
    }
    n
}

/// `s` without white space at either end.
pub fn trim(s: &str) -> (out: String)
    ensures
        out@ == trimmed(s@),
{
    let chars = chars_of(s);
    let from = skip_white(&chars);
    let to = drop_white(&chars, from);
    slice_text(&chars, from, to)
}

/// `a` comes before `b` in the order of strings: by the first character in
/// which they differ, a prefix first.
pub open spec fn before(a: Seq<char>, b: Seq<char>) -> bool
    decreases a.len(),
{
    if b.len() == 0 {
        false
    } else if a.len() == 0 {
        true
    } else if a[0] != b[0] {
        a[0] < b[0]
    } else {
        before(a.drop_first(), b.drop_first())
    }
}

/// Of two different strings exactly one comes before the other.
pub proof fn lemma_before_total(a: Seq<char>, b: Seq<char>)
    ensures
        !(before(a, b) && before(b, a)),
        before(a, b) || before(b, a) || a == b,
        a == b ==> !before(a, b),
    decreases a.len(),
{
    if a.len() > 0 && b.len() > 0 && a[0] == b[0] {
        lemma_before_total(a.drop_first(), b.drop_first());
        assert(a == seq![a[0]] + a.drop_first());
        assert(b == seq![b[0]] + b.drop_first());
    } else if a.len() == 0 && b.len() == 0 {
        assert(a == b);
    }
}

/// The order of strings is transitive.
pub proof fn lemma_before_transitive(a: Seq<char>, b: Seq<char>, c: Seq<char>)
    requires
        before(a, b),
        before(b, c),
    ensures
        before(a, c),
    decreases a.len(),
{
    if a.len() > 0 && b.len() > 0 && c.len() > 0 && a[0] == b[0] && b[0] == c[0] {
        lemma_before_transitive(a.drop_first(), b.drop_first(), c.drop_first());
    }
}

/// Whether `a` comes before `b` in the order of strings.
pub fn comes_before(a: &str, b: &str) -> (r: bool)
    ensures
        r == before(a@, b@),
{
    let x = chars_of(a);
    let y = chars_of(b);
    let mut i: usize = 0;
    assert(x@.skip(0) == x@);
    assert(y@.skip(0) == y@);
    while i < x.len() && i < y.len() && x[i] == y[i]
        invariant
            i <= x.len(),
            i <= y.len(),
            x@ == a@,
            y@ == b@,
            before(a@, b@) == before(x@.skip(i as int), y@.skip(i as int)),
        decreases x.len() - i,
    {
        assert(x@.skip(i as int).drop_first() == x@.skip(i as int + 1));
        assert(y@.skip(i as int).drop_first() == y@.skip(i as int + 1));
        i = i + 1;
    }
    if i >= y.len() {
        false
    } else if i >= x.len() {
        true
    } else {
        x[i] < y[i]
    }
}

/// What is trimmed off a text is white space at its ends, and none is left
/// there: the text is some white space, what is left, and some white space.
pub proof fn law_trimmed_ends(s: Seq<char>) -> (r: (int, int))
    ensures
        0 <= r.0 <= r.1 <= s.len(),
        trimmed(s) == s.subrange(r.0, r.1),
        forall|i: int| 0 <= i < r.0 || r.1 <= i < s.len() ==> is_white(#[trigger] s[i]),
        trimmed(s).len() > 0 ==> !is_white(trimmed(s)[0]) && !is_white(trimmed(s).last()),
{
    let from = lemma_start_end(s);
    let t = trimmed_start(s);
    let len = lemma_end_start(t);
    let to = from + len;
    assert(trimmed(s) =~= s.subrange(from, to));
    assert forall|i: int| 0 <= i < from || to <= i < s.len() implies is_white(#[trigger] s[i]) by {
        if to <= i {
            assert(t[i - from] == s[i]);
        }
    }
    (from, to)
}

/// Where the leading white space of a text ends.
proof fn lemma_start_end(s: Seq<char>) -> (n: int)
    ensures
        0 <= n <= s.len(),
        trimmed_start(s) == s.skip(n),
        forall|i: int| 0 <= i < n ==> is_white(#[trigger] s[i]),
        n < s.len() ==> !is_white(s[n]),
    decreases s.len(),
{
    if s.len() > 0 && is_white(s[0]) {
        let rest = s.drop_first();
        let m = lemma_start_end(rest);
        assert(rest.skip(m) =~= s.skip(m + 1));
        assert forall|i: int| 0 <= i < m + 1 implies is_white(#[trigger] s[i]) by {
            if i > 0 {
                assert(rest[i - 1] == s[i]);
            }
        }
        if m < rest.len() {
            assert(rest[m] == s[m + 1]);
        }
        m + 1
    } else {
        assert(s.skip(0) =~= s);
        0
    }
}

/// Where the trailing white space of a text starts.
proof fn lemma_end_start(s: Seq<char>) -> (n: int)
    ensures
        0 <= n <= s.len(),
        trimmed_end(s) == s.take(n),
        forall|i: int| n <= i < s.len() ==> is_white(#[trigger] s[i]),
        n > 0 ==> !is_white(s[n - 1]),
    decreases s.len(),
{
    if s.len() > 0 && is_white(s.last()) {
        let rest = s.drop_last();
        let m = lemma_end_start(rest);
        assert(rest.take(m) =~= s.take(m));
        assert forall|i: int| m <= i < s.len() implies is_white(#[trigger] s[i]) by {
            if i < rest.len() {
                assert(rest[i] == s[i]);
            }
        }
        m
    } else {
        assert(s.take(s.len() as int) =~= s);
        s.len() as int
    }
}

} // verus!
