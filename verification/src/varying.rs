//! Shader sources: the declarations that link two stages, and constructs that
//! only lenient compilers take.
use vstd::prelude::*;

use crate::json::decimal_text;
use crate::property::split_words;
use crate::table::Table;
use crate::text::{chars_of, contains_char, join, same, skip_white, slice_text, split_on, starts_with};

verus! {

/// A text without the carriage return at its end, if it has one.
pub open spec fn chomped(s: Seq<char>) -> Seq<char> {
    if s.len() > 0 && s.last() == '\r' {
        s.drop_last()
    } else {
        s
    }
}

/// The lines of a text, without their line ends. What follows the last line
/// end is a line only if there is anything.
pub open spec fn lines_of(s: Seq<char>) -> Seq<Seq<char>> {
    let p = crate::text::pieces(s, '\n');
    let done = Seq::new((p.len() - 1) as nat, |i: int| chomped(p[i]));
    if p.last().len() == 0 {
        done
    } else {
        done.push(p.last())
    }
}

/// A text without the carriage return at its end, if it has one.
fn chomp(s: &str) -> (r: String)
    ensures
        r@ == chomped(s@),
{
    let c = chars_of(s);
    let n: usize = c.len();
    if n > 0 && c[n - 1] == '\r' {
        let r = slice_text(&c, 0, n - 1);
        assert(r@ =~= s@.drop_last());
        r
    } else {
        s.to_owned()
    }
}

/// The lines of a text, without their line ends.
pub fn lines(s: &str) -> (r: Vec<String>)
    ensures
        crate::text::texts(r@) == lines_of(s@),
{
    let all = split_on(s, '\n');
    let ghost p = crate::text::pieces(s@, '\n');
    let ghost done = Seq::new((p.len() - 1) as nat, |i: int| chomped(p[i]));
    let n: usize = all.len();
    let mut out: Vec<String> = Vec::new();
    let mut i: usize = 0;
    while i < n - 1
        invariant
            n == all@.len(),
            n >= 1,
            i <= n - 1,
            crate::text::texts(all@) == p,
            done == Seq::new((p.len() - 1) as nat, |i: int| chomped(p[i])),
            crate::text::texts(out@) == done.take(i as int),
        decreases n - i,
    {
        let ghost was = crate::text::texts(out@);
        let line = chomp(all[i].as_str());
        assert(all@[i as int]@ == p[i as int]);
        let ghost shown = line@;
        out.push(line);
        assert(crate::text::texts(out@) =~= was.push(shown));
        assert(done.take(i + 1) =~= done.take(i as int).push(done[i as int]));
        i = i + 1;
    }
    assert(done.take(i as int) =~= done);
    assert(all@[n - 1]@ == p.last());
    let last = chars_of(all[n - 1].as_str());
    if last.len() > 0 {
        let ghost was = crate::text::texts(out@);
        out.push(all[n - 1].clone());
        assert(crate::text::texts(out@) =~= was.push(p.last()));
    }
    out
}

/// Whether a character may stand in a name.
pub open spec fn is_name_char(c: char) -> bool {
    'a' <= c <= 'z' || 'A' <= c <= 'Z' || '0' <= c <= '9' || c == '_'
}

/// A text without the semicolons at its end.
pub open spec fn unterminated(s: Seq<char>) -> Seq<char>
    decreases s.len(),
{
    if s.len() > 0 && s.last() == ';' {
        unterminated(s.drop_last())
    } else {
        s
    }
}

/// What a line declares behind `varying`, if it begins with that word.
pub open spec fn varying_rest(line: Seq<char>) -> Option<Seq<char>> {
    let t = crate::text::trimmed_start(line);
    if crate::text::begins(t, "varying "@) {
        Some(t.skip("varying "@.len() as int))
    } else {
        None
    }
}

/// The name that a line `varying TYPE name;` declares. Arrays, and anything
/// that is not a plain name, declare none.
pub open spec fn varying_name(line: Seq<char>) -> Option<Seq<char>> {
    match varying_rest(line) {
        None => None,
        Some(rest) => if rest.contains('[') {
            None
        } else {
            let w = crate::property::words(rest);
            if w.len() < 2 {
                None
            } else {
                let name = unterminated(w[1]);
                if name.len() > 0 && forall|i: int|
                    0 <= i < name.len() ==> is_name_char(#[trigger] name[i]) {
                    Some(name)
                } else {
                    None
                }
            }
        },
    }
}

/// What a line declares behind `varying`.
fn rest_of(line: &str) -> (r: Option<String>)
    ensures
        crate::fields::opt_text(r) == varying_rest(line@),
{
    let c = chars_of(line);
    let n = skip_white(&c);
    let t = slice_text(&c, n, c.len());
    assert(t@ =~= crate::text::trimmed_start(line@));
    if starts_with(t.as_str(), "varying ") {
        let head = chars_of("varying ");
        let all = chars_of(t.as_str());
        let rest = slice_text(&all, head.len(), all.len());
        assert(rest@ =~= t@.skip("varying "@.len() as int));
        Some(rest)
    } else {
        None
    }
}

/// The name that a line `varying TYPE name;` declares.
pub fn varying_decl_name(line: &str) -> (r: Option<String>)
    ensures
        crate::fields::opt_text(r) == varying_name(line@),
{
    let rest = match rest_of(line) {
        None => {
            return None;
        },
        Some(rest) => rest,
    };
    if contains_char(rest.as_str(), '[') {
        return None;
    }
    let w = split_words(rest.as_str());
    let ghost shown = crate::property::words(rest@);
    if w.len() < 2 {
        return None;
    }
    assert(shown[1] == w@[1]@);
    let c = chars_of(w[1].as_str());
    let mut n: usize = c.len();
    assert(c@.take(n as int) =~= c@);
    while n > 0 && c[n - 1] == ';'
        invariant
            n <= c@.len(),
            unterminated(c@) == unterminated(c@.take(n as int)),
        decreases n,
    {
        assert(c@.take(n as int).drop_last() =~= c@.take(n - 1));
        n = n - 1;
    }
    assert(unterminated(c@) == c@.take(n as int));
    if n == 0 {
        return None;
    }
    let ghost name = unterminated(shown[1]);
    let mut i: usize = 0;
    while i < n
        invariant
            i <= n <= c@.len(),
            name == c@.take(n as int),
            name == unterminated(shown[1]),
            shown == crate::property::words(rest@),
            shown.len() >= 2,
            varying_rest(line@) == Some(rest@),
            !rest@.contains('['),
            forall|k: int| 0 <= k < i ==> is_name_char(#[trigger] c@[k]),
        decreases n - i,
    {
        let x = c[i];
        if !(('a' <= x && x <= 'z') || ('A' <= x && x <= 'Z') || ('0' <= x && x <= '9') || x
            == '_') {
            assert(!is_name_char(name[i as int]));
            return None;
        }
        i = i + 1;
    }
    assert forall|k: int| 0 <= k < name.len() implies is_name_char(#[trigger] name[k]) by {
        assert(name[k] == c@[k]);
    }
    let r = slice_text(&c, 0, n);
    assert(r@ =~= name);
    Some(r)
}

/// Whether a line declares an array behind `varying`.
pub open spec fn declares_array(line: Seq<char>) -> bool {
    varying_rest(line) matches Some(rest) && rest.contains('[')
}

/// Whether any line declares an array behind `varying`.
pub fn has_array_varying(src: &str) -> (r: bool)
    ensures
        r == exists|i: int| 0 <= i < lines_of(src@).len() && declares_array(
            #[trigger] lines_of(src@)[i],
        ),
{
    let all = lines(src);
    let ghost shown = lines_of(src@);
    let mut i: usize = 0;
    while i < all.len()
        invariant
            i <= all@.len(),
            crate::text::texts(all@) == shown,
            shown == lines_of(src@),
            forall|k: int| 0 <= k < i ==> !declares_array(#[trigger] shown[k]),
        decreases all@.len() - i,
    {
        assert(shown[i as int] == all@[i as int]@);
        if let Some(rest) = rest_of(all[i].as_str()) {
            if contains_char(rest.as_str(), '[') {
                assert(declares_array(shown[i as int]));
                return true;
            }
        }
        i = i + 1;
    }
    false
}

/// The names that some lines declare.
pub open spec fn names_in(all: Seq<Seq<char>>) -> Set<Seq<char>>
    decreases all.len(),
{
    if all.len() == 0 {
        Set::empty()
    } else {
        match varying_name(all.last()) {
            Some(n) => names_in(all.drop_last()).insert(n),
            None => names_in(all.drop_last()),
        }
    }
}

/// The names that either of two stages declares.
pub open spec fn linked_names(vs: Seq<char>, fs: Seq<char>) -> Set<Seq<char>> {
    names_in(lines_of(vs) + lines_of(fs))
}

/// The location of a name: how many of the names come before it.
pub open spec fn location_of(names: Set<Seq<char>>, n: Seq<char>) -> nat {
    names.filter(|m: Seq<char>| crate::text::before(m, n)).len()
}

/// The names of the first `n` entries of a table.
spec fn first_names<V>(e: Seq<(String, V)>, n: nat) -> Set<Seq<char>>
    decreases n,
{
    if n == 0 {
        Set::empty()
    } else {
        first_names(e, (n - 1) as nat).insert(e[n - 1].0@)
    }
}

proof fn lemma_first_names<V>(e: Seq<(String, V)>, n: nat)
    requires
        crate::table::ordered(e),
        n <= e.len(),
    ensures
        first_names(e, n).finite(),
        first_names(e, n).len() == n,
        forall|k: Seq<char>| #[trigger]
            first_names(e, n).contains(k) <==> exists|i: int|
                0 <= i < n && crate::table::named(e, k, i),
    decreases n,
{
    if n > 0 {
        lemma_first_names(e, (n - 1) as nat);
        let last = e[n - 1].0@;
        if first_names(e, (n - 1) as nat).contains(last) {
            let i = choose|i: int| 0 <= i < n - 1 && crate::table::named(e, last, i);
            assert(crate::text::before(e[i].0@, e[n - 1].0@));
            crate::text::lemma_before_total(last, last);
        }
        assert forall|k: Seq<char>| #[trigger] first_names(e, n).contains(k) <==> exists|i: int|
            0 <= i < n && crate::table::named(e, k, i) by {
            if k == last {
                assert(crate::table::named(e, k, n - 1));
            } else if first_names(e, n).contains(k) {
                assert(first_names(e, (n - 1) as nat).contains(k));
            } else if exists|i: int| 0 <= i < n && crate::table::named(e, k, i) {
                let i = choose|i: int| 0 <= i < n && crate::table::named(e, k, i);
                assert(i < n - 1);
                assert(first_names(e, (n - 1) as nat).contains(k));
            }
        }
    }
}

/// In a table the location of a name is its place.
proof fn lemma_location<V>(e: Seq<(String, V)>, i: int)
    requires
        crate::table::ordered(e),
        0 <= i < e.len(),
    ensures
        location_of(crate::table::map_of(e).dom(), e[i].0@) == i,
{
    let n = e[i].0@;
    let dom = crate::table::map_of(e).dom();
    lemma_first_names(e, i as nat);
    assert(dom.filter(|m: Seq<char>| crate::text::before(m, n)) =~= first_names(e, i as nat)) by {
        assert forall|k: Seq<char>|
            dom.filter(|m: Seq<char>| crate::text::before(m, n)).contains(k)
                <==> #[trigger] first_names(e, i as nat).contains(k) by {
            if dom.contains(k) && crate::text::before(k, n) {
                let j = choose|j: int| crate::table::named(e, k, j);
                assert(crate::table::named(e, k, j));
                if j >= i {
                    crate::text::lemma_before_total(k, n);
                    if j > i {
                        assert(crate::text::before(e[i].0@, e[j].0@));
                    }
                }
            }
            if first_names(e, i as nat).contains(k) {
                let j = choose|j: int| 0 <= j < i && crate::table::named(e, k, j);
                assert(crate::text::before(e[j].0@, e[i].0@));
                assert(dom.contains(k));
            }
        }
    }
}

/// Different names get different locations, below the number of names.
pub proof fn law_locations_distinct(names: Set<Seq<char>>, a: Seq<char>, b: Seq<char>)
    requires
        names.finite(),
        names.contains(a),
        names.contains(b),
    ensures
        location_of(names, a) == location_of(names, b) <==> a == b,
        location_of(names, a) < names.len(),
{
    let fa = names.filter(|m: Seq<char>| crate::text::before(m, a));
    let fb = names.filter(|m: Seq<char>| crate::text::before(m, b));
    crate::text::lemma_before_total(a, b);
    crate::text::lemma_before_total(a, a);
    crate::text::lemma_before_total(b, b);
    names.lemma_len_filter(|m: Seq<char>| crate::text::before(m, a));
    names.lemma_len_filter(|m: Seq<char>| crate::text::before(m, b));
    assert(!fa.contains(a));
    assert(fa.insert(a).subset_of(names));
    vstd::set_lib::lemma_len_subset(fa.insert(a), names);
    if crate::text::before(a, b) {
        lemma_fewer(names, a, b);
    } else if crate::text::before(b, a) {
        lemma_fewer(names, b, a);
    }
}

/// An earlier name has a lower location.
proof fn lemma_fewer(names: Set<Seq<char>>, a: Seq<char>, b: Seq<char>)
    requires
        names.finite(),
        names.contains(a),
        crate::text::before(a, b),
    ensures
        location_of(names, a) < location_of(names, b),
{
    let fa = names.filter(|m: Seq<char>| crate::text::before(m, a));
    let fb = names.filter(|m: Seq<char>| crate::text::before(m, b));
    names.lemma_len_filter(|m: Seq<char>| crate::text::before(m, a));
    names.lemma_len_filter(|m: Seq<char>| crate::text::before(m, b));
    crate::text::lemma_before_total(a, a);
    assert(fa.insert(a).subset_of(fb)) by {
        assert forall|m: Seq<char>| fa.insert(a).contains(m) implies fb.contains(m) by {
            if m != a {
                crate::text::lemma_before_transitive(m, a, b);
            }
        }
    }
    vstd::set_lib::lemma_len_subset(fa.insert(a), fb);
}

/// The text before the first character of a line that is not white.
pub open spec fn indent_of(line: Seq<char>) -> Seq<char> {
    line.take(line.len() - crate::text::trimmed_start(line).len())
}

/// A line with its declaration pinned to a location.
pub open spec fn pinned_line(line: Seq<char>, names: Set<Seq<char>>) -> Seq<char> {
    match varying_name(line) {
        Some(n) => indent_of(line) + "layout(location = "@ + crate::json::decimal(
            location_of(names, n),
        ) + ") "@ + crate::text::trimmed_start(line),
        None => line,
    }
}

/// A source with its declarations pinned to locations.
pub open spec fn pinned(src: Seq<char>, names: Set<Seq<char>>) -> Seq<char> {
    crate::text::joined(
        lines_of(src).map_values(|line: Seq<char>| pinned_line(line, names)),
        '\n',
    )
}

/// Collect the names that some lines declare.
fn collect_names(table: &mut Table<bool>, all: &Vec<String>, Ghost(head): Ghost<Seq<Seq<char>>>)
    requires
        old(table).wf(),
        old(table)@.dom() == names_in(head),
    ensures
        final(table).wf(),
        final(table)@.dom() == names_in(head + crate::text::texts(all@)),
{
    let ghost shown = crate::text::texts(all@);
    let mut i: usize = 0;
    assert(head + shown.take(0) =~= head);
    while i < all.len()
        invariant
            i <= all@.len(),
            shown == crate::text::texts(all@),
            table.wf(),
            table@.dom() == names_in(head + shown.take(i as int)),
        decreases all@.len() - i,
    {
        let ghost upto = head + shown.take(i + 1);
        assert(upto.drop_last() =~= head + shown.take(i as int));
        assert(upto.last() == all@[i as int]@);
        let ghost was = table@;
        if let Some(n) = varying_decl_name(all[i].as_str()) {
            table.insert(n.as_str(), true);
            assert(table@.dom() =~= was.dom().insert(n@));
        }
        i = i + 1;
    }
    assert(shown.take(i as int) =~= shown);
}

/// A line with its declaration pinned to a location.
fn pin_line(line: &str, table: &Table<bool>) -> (r: String)
    requires
        table.wf(),
        varying_name(line@) matches Some(n) ==> table@.dom().contains(n),
    ensures
        r@ == pinned_line(line@, table@.dom()),
{
    match varying_decl_name(line) {
        None => line.to_owned(),
        Some(n) => {
            let c = chars_of(line);
            let at = skip_white(&c);
            assert(crate::text::trimmed_start(line@) == line@.skip(at as int));
            let place: usize = match table.position(n.as_str()) {
                Some(p) => p,
                None => 0,
            };
            proof {
                assert(crate::table::named(table.entries@, n@, place as int));
                lemma_location(table.entries@, place as int);
            }
            let mut out = slice_text(&c, 0, at);
            assert(out@ =~= indent_of(line@));
            out.append("layout(location = ");
            let number = decimal_text(place as u64);
            out.append(number.as_str());
            out.append(") ");
            let rest = slice_text(&c, at, c.len());
            assert(rest@ =~= crate::text::trimmed_start(line@));
            out.append(rest.as_str());
            out
        },
    }
}

/// A source with its declarations pinned to locations.
fn pin_source(all: &Vec<String>, table: &Table<bool>, Ghost(src): Ghost<Seq<char>>) -> (r: String)
    requires
        table.wf(),
        crate::text::texts(all@) == lines_of(src),
        forall|i: int|
            0 <= i < lines_of(src).len() ==> (varying_name(#[trigger] lines_of(src)[i]) matches Some(
                n,
            ) ==> table@.dom().contains(n)),
    ensures
        r@ == pinned(src, table@.dom()),
{
    let ghost names = table@.dom();
    let ghost goal = lines_of(src).map_values(|line: Seq<char>| pinned_line(line, names));
    let mut out: Vec<String> = Vec::new();
    let mut i: usize = 0;
    while i < all.len()
        invariant
            i <= all@.len(),
            table.wf(),
            names == table@.dom(),
            crate::text::texts(all@) == lines_of(src),
            goal == lines_of(src).map_values(|line: Seq<char>| pinned_line(line, names)),
            forall|k: int|
                0 <= k < lines_of(src).len() ==> (varying_name(
                    #[trigger] lines_of(src)[k],
                ) matches Some(n) ==> table@.dom().contains(n)),
            crate::text::texts(out@) == goal.take(i as int),
        decreases all@.len() - i,
    {
        assert(lines_of(src)[i as int] == all@[i as int]@);
        let ghost was = crate::text::texts(out@);
        let line = pin_line(all[i].as_str(), table);
        let ghost shown = line@;
        out.push(line);
        assert(crate::text::texts(out@) =~= was.push(shown));
        assert(goal.take(i + 1) =~= goal.take(i as int).push(goal[i as int]));
        i = i + 1;
    }
    assert(goal.take(i as int) =~= goal);
    join(&out, '\n')
}

/// What a line declares is among the names of the lines.
proof fn lemma_declared(all: Seq<Seq<char>>, i: int)
    requires
        0 <= i < all.len(),
        varying_name(all[i]) is Some,
    ensures
        names_in(all).contains(varying_name(all[i])->0),
    decreases all.len(),
{
    if i < all.len() - 1 {
        assert(all.drop_last()[i] == all[i]);
        lemma_declared(all.drop_last(), i);
    }
}

/// Pin what both stages declare to the same locations, by name: a name's
/// location is its place among all names of both stages, in order.
pub fn pin_varying_locations(vs_src: &str, fs_src: &str) -> (r: (String, String))
    ensures
        r.0@ == pinned(vs_src@, linked_names(vs_src@, fs_src@)),
        r.1@ == pinned(fs_src@, linked_names(vs_src@, fs_src@)),
{
    let vs = lines(vs_src);
    let fs = lines(fs_src);
    let mut table: Table<bool> = Table::new();
    let ghost none = Seq::<Seq<char>>::empty();
    assert(table@.dom() =~= names_in(none));
    collect_names(&mut table, &vs, Ghost(none));
    assert(none + lines_of(vs_src@) =~= lines_of(vs_src@));
    collect_names(&mut table, &fs, Ghost(lines_of(vs_src@)));
    proof {
        let all = lines_of(vs_src@) + lines_of(fs_src@);
        assert forall|i: int| 0 <= i < lines_of(vs_src@).len() implies (varying_name(
            #[trigger] lines_of(vs_src@)[i],
        ) matches Some(n) ==> table@.dom().contains(n)) by {
            if varying_name(lines_of(vs_src@)[i]) is Some {
                assert(all[i] == lines_of(vs_src@)[i]);
                lemma_declared(all, i);
            }
        }
        assert forall|i: int| 0 <= i < lines_of(fs_src@).len() implies (varying_name(
            #[trigger] lines_of(fs_src@)[i],
        ) matches Some(n) ==> table@.dom().contains(n)) by {
            if varying_name(lines_of(fs_src@)[i]) is Some {
                assert(all[lines_of(vs_src@).len() + i] == lines_of(fs_src@)[i]);
                lemma_declared(all, lines_of(vs_src@).len() + i);
            }
        }
    }
    (pin_source(&vs, &table, Ghost(vs_src@)), pin_source(&fs, &table, Ghost(fs_src@)))
}

/// How often a text occurs in another, counted from the left without overlap.
pub open spec fn occurrences(s: Seq<char>, pattern: Seq<char>) -> nat
    decreases s.len(),
{
    if pattern.len() == 0 || s.len() < pattern.len() {
        0
    } else if crate::text::begins(s, pattern) {
        1 + occurrences(s.skip(pattern.len() as int), pattern)
    } else {
        occurrences(s.skip(1), pattern)
    }
}

/// Whether a text stands in another from a place on.
fn stands_at(s: &Vec<char>, at: usize, pattern: &Vec<char>) -> (r: bool)
    requires
        at <= s@.len(),
    ensures
        r == crate::text::begins(s@.skip(at as int), pattern@),
{
    if s.len() - at < pattern.len() {
        return false;
    }
    let n: usize = s.len();
    let mut i: usize = 0;
    while i < pattern.len()
        invariant
            at + pattern@.len() <= n,
            n == s@.len(),
            i <= pattern@.len(),
            forall|k: int| 0 <= k < i ==> s@[at + k] == #[trigger] pattern@[k],
        decreases pattern@.len() - i,
    {
        if s[at + i] != pattern[i] {
            assert(s@.skip(at as int).take(pattern@.len() as int)[i as int] != pattern@[i as int]);
            return false;
        }
        i = i + 1;
    }
    assert(s@.skip(at as int).take(pattern@.len() as int) =~= pattern@);
    true
}

/// How often a text occurs in another.
pub fn count_matches(s: &str, pattern: &str) -> (n: usize)
    ensures
        n == occurrences(s@, pattern@),
{
    let c = chars_of(s);
    let p = chars_of(pattern);
    if p.len() == 0 {
        return 0;
    }
    let len: usize = c.len();
    let mut n: usize = 0;
    let mut i: usize = 0;
    assert(c@.skip(0) =~= c@);
    while i < len && len - i >= p.len()
        invariant
            c@ == s@,
            p@ == pattern@,
            p@.len() > 0,
            len == c@.len(),
            i <= len,
            n <= i,
            occurrences(s@, pattern@) == n + occurrences(c@.skip(i as int), pattern@),
        decreases len - i,
    {
        if stands_at(&c, i, &p) {
            assert(c@.skip(i as int).skip(p@.len() as int) =~= c@.skip(i + p@.len()));
            n = n + 1;
            i = i + p.len();
        } else {
            assert(c@.skip(i as int).skip(1) =~= c@.skip(i + 1));
            i = i + 1;
        }
    }
    n
}

/// A text with every occurrence of another replaced, from the left.
pub open spec fn replaced_text(s: Seq<char>, from: Seq<char>, to: Seq<char>) -> Seq<char>
    decreases s.len(),
{
    if from.len() == 0 || s.len() < from.len() {
        s
    } else if crate::text::begins(s, from) {
        to + replaced_text(s.skip(from.len() as int), from, to)
    } else {
        seq![s[0]] + replaced_text(s.skip(1), from, to)
    }
}

/// Replace every occurrence of a text in another.
pub fn replace_text(s: &str, from: &str, to: &str) -> (r: String)
    ensures
        r@ == replaced_text(s@, from@, to@),
{
    let c = chars_of(s);
    let p = chars_of(from);
    if p.len() == 0 {
        return s.to_owned();
    }
    let len: usize = c.len();
    let mut out = String::new();
    let mut i: usize = 0;
    assert(c@.skip(0) =~= c@);
    assert(out@ + replaced_text(c@.skip(0), from@, to@) =~= replaced_text(s@, from@, to@));
    while i < len && len - i >= p.len()
        invariant
            c@ == s@,
            p@ == from@,
            p@.len() > 0,
            len == c@.len(),
            i <= len,
            replaced_text(s@, from@, to@) == out@ + replaced_text(c@.skip(i as int), from@, to@),
        decreases len - i,
    {
        let ghost was = out@;
        let ghost tail = c@.skip(i as int);
        if stands_at(&c, i, &p) {
            assert(tail.skip(p@.len() as int) =~= c@.skip(i + p@.len()));
            out.append(to);
            assert(was + (to@ + replaced_text(c@.skip(i + p@.len()), from@, to@)) =~= out@
                + replaced_text(c@.skip(i + p@.len()), from@, to@));
            i = i + p.len();
        } else {
            assert(tail.skip(1) =~= c@.skip(i + 1));
            out.push(c[i]);
            assert(was + (seq![c@[i as int]] + replaced_text(c@.skip(i + 1), from@, to@)) =~= out@
                + replaced_text(c@.skip(i + 1), from@, to@));
            i = i + 1;
        }
    }
    let rest = slice_text(&c, i, len);
    assert(rest@ =~= c@.skip(i as int));
    out.append(rest.as_str());
    out
}

/// Whether a line of a fragment source declares a name that the vertex source
/// does not declare and that the fragment source holds nowhere else.
pub open spec fn is_dead(line: Seq<char>, vs: Seq<char>, fs: Seq<char>) -> bool {
    varying_name(line) matches Some(n) && !names_in(lines_of(vs)).contains(n) && occurrences(fs, n)
        == 1
}

/// The lines of a fragment source that are not dead.
pub open spec fn live_lines(all: Seq<Seq<char>>, vs: Seq<char>, fs: Seq<char>) -> Seq<Seq<char>> {
    all.filter(|line: Seq<char>| !is_dead(line, vs, fs))
}

/// A fragment source without its dead declarations; as it is where it has
/// none.
pub open spec fn stripped(vs: Seq<char>, fs: Seq<char>) -> Seq<char> {
    if exists|i: int| 0 <= i < lines_of(fs).len() && is_dead(#[trigger] lines_of(fs)[i], vs, fs) {
        crate::text::joined(live_lines(lines_of(fs), vs, fs), '\n')
    } else {
        fs
    }
}

/// Whether a line declares a dead name.
fn dead_line(line: &str, names: &Table<bool>, fs_src: &str, Ghost(vs): Ghost<Seq<char>>) -> (r: bool)
    requires
        names.wf(),
        names@.dom() == names_in(lines_of(vs)),
    ensures
        r == is_dead(line@, vs, fs_src@),
{
    match varying_decl_name(line) {
        None => false,
        Some(n) => match names.get(n.as_str()) {
            Some(_) => false,
            None => count_matches(fs_src, n.as_str()) == 1,
        },
    }
}

/// Drop the declarations of a fragment source that nothing writes and nothing
/// reads.
pub fn strip_dead_fs_varyings(vs_src: &str, fs_src: &str) -> (r: String)
    ensures
        r@ == stripped(vs_src@, fs_src@),
{
    broadcast use vstd::seq_lib::group_filter_ensures;

    let vs = lines(vs_src);
    let fs = lines(fs_src);
    let ghost shown = lines_of(fs_src@);
    let ghost live = |line: Seq<char>| !is_dead(line, vs_src@, fs_src@);
    let mut names: Table<bool> = Table::new();
    let ghost none = Seq::<Seq<char>>::empty();
    assert(names@.dom() =~= names_in(none));
    collect_names(&mut names, &vs, Ghost(none));
    assert(none + lines_of(vs_src@) =~= lines_of(vs_src@));
    let mut kept: Vec<String> = Vec::new();
    let mut any = false;
    let mut i: usize = 0;
    assert(crate::text::texts(kept@) =~= shown.take(0).filter(live)) by {
        reveal(Seq::filter);
    }
    while i < fs.len()
        invariant
            i <= fs@.len(),
            crate::text::texts(fs@) == shown,
            shown == lines_of(fs_src@),
            names.wf(),
            names@.dom() == names_in(lines_of(vs_src@)),
            live == (|line: Seq<char>| !is_dead(line, vs_src@, fs_src@)),
            crate::text::texts(kept@) == shown.take(i as int).filter(live),
            any == exists|k: int|
                0 <= k < i && is_dead(#[trigger] shown[k], vs_src@, fs_src@),
        decreases fs@.len() - i,
    {
        assert(shown[i as int] == fs@[i as int]@);
        let ghost was = crate::text::texts(kept@);
        let dead = dead_line(fs[i].as_str(), &names, fs_src, Ghost(vs_src@));
        assert(shown.take(i + 1).drop_last() =~= shown.take(i as int));
        assert(shown.take(i + 1).filter(live) == if live(shown[i as int]) {
            was.push(shown[i as int])
        } else {
            was
        }) by {
            reveal(Seq::filter);
        }
        if dead {
            assert(is_dead(shown[i as int], vs_src@, fs_src@));
            any = true;
        } else {
            kept.push(fs[i].clone());
            assert(crate::text::texts(kept@) =~= was.push(shown[i as int]));
        }
        i = i + 1;
    }
    assert(shown.take(i as int) =~= shown);
    if any {
        join(&kept, '\n')
    } else {
        fs_src.to_owned()
    }
}

/// Whether a parenthesis opens before any `=` or `;`.
pub open spec fn opens_first(s: Seq<char>) -> bool
    decreases s.len(),
{
    s.len() > 0 && (s[0] == '(' || (s[0] != '=' && s[0] != ';' && opens_first(s.skip(1))))
}

/// Whether what follows a leading `const` is a function, not a variable.
pub fn is_const_return_function(rest: &str) -> (r: bool)
    ensures
        r == opens_first(rest@),
{
    let c = chars_of(rest);
    let mut i: usize = 0;
    assert(c@.skip(0) =~= c@);
    while i < c.len()
        invariant
            i <= c@.len(),
            c@ == rest@,
            opens_first(rest@) == opens_first(c@.skip(i as int)),
        decreases c@.len() - i,
    {
        assert(c@.skip(i as int).skip(1) =~= c@.skip(i + 1));
        assert(c@.skip(i as int)[0] == c@[i as int]);
        let x = c[i];
        if x == '(' {
            return true;
        }
        if x == '=' || x == ';' {
            return false;
        }
        i = i + 1;
    }
    false
}

/// A line without the `const` before a function.
pub open spec fn plain_line(line: Seq<char>) -> Seq<char> {
    let t = crate::text::trimmed_start(line);
    let rest = t.skip("const "@.len() as int);
    if crate::text::begins(t, "const "@) && opens_first(rest) {
        indent_of(line) + rest
    } else {
        line
    }
}

/// A source without constructs that only lenient compilers take: `const`
/// before functions, and in fragment sources `gl_Position`, for which
/// `gl_FragCoord` stands.
pub open spec fn sanitized(src: Seq<char>, fragment: bool) -> Seq<char> {
    let out = crate::text::joined(lines_of(src).map_values(|line: Seq<char>| plain_line(line)), '\n');
    if fragment {
        replaced_text(out, "gl_Position"@, "gl_FragCoord"@)
    } else {
        out
    }
}

/// Which stage a source belongs to.
#[derive(Clone, Copy, Debug, PartialEq, Eq, Structural)]
pub enum Stage {
    /// Vertices.
    Vertex,
    /// Fragments.
    Fragment,
}

/// A line without the `const` before a function.
fn sanitize_line(line: &str) -> (r: String)
    ensures
        r@ == plain_line(line@),
{
    let c = chars_of(line);
    let at = skip_white(&c);
    let t = slice_text(&c, at, c.len());
    assert(t@ =~= crate::text::trimmed_start(line@));
    if starts_with(t.as_str(), "const ") {
        let head = chars_of("const ");
        let all = chars_of(t.as_str());
        let rest = slice_text(&all, head.len(), all.len());
        assert(rest@ =~= t@.skip("const "@.len() as int));
        if is_const_return_function(rest.as_str()) {
            let mut out = slice_text(&c, 0, at);
            assert(out@ =~= indent_of(line@));
            out.append(rest.as_str());
            return out;
        }
    }
    line.to_owned()
}

/// Make a source palatable to a strict compiler.
pub fn sanitize_glsl(src: &str, stage: Stage) -> (r: String)
    ensures
        r@ == sanitized(src@, stage == Stage::Fragment),
{
    let all = lines(src);
    let ghost goal = lines_of(src@).map_values(|line: Seq<char>| plain_line(line));
    let mut out: Vec<String> = Vec::new();
    let mut i: usize = 0;
    while i < all.len()
        invariant
            i <= all@.len(),
            crate::text::texts(all@) == lines_of(src@),
            goal == lines_of(src@).map_values(|line: Seq<char>| plain_line(line)),
            crate::text::texts(out@) == goal.take(i as int),
        decreases all@.len() - i,
    {
        assert(lines_of(src@)[i as int] == all@[i as int]@);
        let ghost was = crate::text::texts(out@);
        let line = sanitize_line(all[i].as_str());
        let ghost shown = line@;
        out.push(line);
        assert(crate::text::texts(out@) =~= was.push(shown));
        assert(goal.take(i + 1) =~= goal.take(i as int).push(goal[i as int]));
        i = i + 1;
    }
    assert(goal.take(i as int) =~= goal);
    let whole = join(&out, '\n');
    match stage {
        Stage::Fragment => replace_text(whole.as_str(), "gl_Position", "gl_FragCoord"),
        Stage::Vertex => whole,
    }
}

/// A source without such constructs keeps its lines.
pub proof fn law_sanitize_keeps_plain_sources(src: Seq<char>, fragment: bool)
    requires
        forall|i: int| 0 <= i < lines_of(src).len() ==> plain_line(#[trigger] lines_of(src)[i])
            == lines_of(src)[i],
        fragment ==> occurrences(crate::text::joined(lines_of(src), '\n'), "gl_Position"@) == 0,
    ensures
        sanitized(src, fragment) == crate::text::joined(lines_of(src), '\n'),
{
    assert(lines_of(src).map_values(|line: Seq<char>| plain_line(line)) =~= lines_of(src));
    if fragment {
        reveal_strlit("gl_Position");
        lemma_replace_absent(
            crate::text::joined(lines_of(src), '\n'),
            "gl_Position"@,
            "gl_FragCoord"@,
        );
    }
}

/// Replacing a text that does not occur changes nothing.
proof fn lemma_replace_absent(s: Seq<char>, from: Seq<char>, to: Seq<char>)
    requires
        occurrences(s, from) == 0,
    ensures
        replaced_text(s, from, to) == s,
    decreases s.len(),
{
    if from.len() > 0 && s.len() >= from.len() {
        lemma_replace_absent(s.skip(1), from, to);
        assert(seq![s[0]] + s.skip(1) =~= s);
    }
}

/// A name is declared by some lines where one of them declares it.
pub proof fn law_declared_names(all: Seq<Seq<char>>, n: Seq<char>)
    ensures
        names_in(all).contains(n) <==> exists|i: int|
            0 <= i < all.len() && varying_name(#[trigger] all[i]) == Some(n),
    decreases all.len(),
{
    if all.len() > 0 {
        let fewer = all.drop_last();
        law_declared_names(fewer, n);
        assert(all.last() == all[all.len() - 1]);
        if names_in(fewer).contains(n) {
            let i = choose|i: int| 0 <= i < fewer.len() && varying_name(#[trigger] fewer[i]) == Some(n);
            assert(all[i] == fewer[i]);
        }
        if exists|i: int| 0 <= i < all.len() && varying_name(#[trigger] all[i]) == Some(n) {
            let i = choose|i: int| 0 <= i < all.len() && varying_name(#[trigger] all[i]) == Some(n);
            if i < fewer.len() {
                assert(fewer[i] == all[i]);
            }
        }
    }
}

/// A text without white space is one word.
proof fn lemma_one_word(s: Seq<char>)
    requires
        forall|i: int| 0 <= i < s.len() ==> !crate::text::is_white(#[trigger] s[i]),
    ensures
        crate::property::word_scan(s) == (Seq::<Seq<char>>::empty(), s),
        s.len() > 0 ==> crate::property::words(s) == seq![s],
    decreases s.len(),
{
    if s.len() > 0 {
        let t = s.drop_last();
        assert forall|i: int| 0 <= i < t.len() implies !crate::text::is_white(#[trigger] t[i]) by {
            assert(t[i] == s[i]);
        }
        lemma_one_word(t);
        assert(t.push(s.last()) =~= s);
        assert(Seq::<Seq<char>>::empty().push(s) =~= seq![s]);
    } else {
        assert(s =~= Seq::<char>::empty());
    }
}

/// `varying`, a type, a name and a semicolon declare the name, whatever the type.
pub proof fn law_varying_declares_name(ty: Seq<char>, name: Seq<char>)
    requires
        ty.len() > 0,
        forall|i: int| 0 <= i < ty.len() ==> !crate::text::is_white(#[trigger] ty[i]),
        !ty.contains('['),
        name.len() > 0,
        forall|i: int| 0 <= i < name.len() ==> is_name_char(#[trigger] name[i]),
    ensures
        varying_name("varying "@ + ty + seq![' '] + name + seq![';']) == Some(name),
        varying_rest("varying "@ + ty + seq![' '] + name + seq![';']) == Some(
            ty + seq![' '] + name + seq![';'],
        ),
{
    let line = "varying "@ + ty + seq![' '] + name + seq![';'];
    let rest = ty + seq![' '] + name + seq![';'];
    let word = name + seq![';'];
    reveal_strlit("varying ");
    assert(line[0] == 'v');
    assert(crate::text::trimmed_start(line) == line);
    assert(line.take("varying "@.len() as int) =~= "varying "@);
    assert(line.skip("varying "@.len() as int) =~= rest);
    assert(!rest.contains('[')) by {
        if rest.contains('[') {
            let i = choose|i: int| 0 <= i < rest.len() && rest[i] == '[';
            if i < ty.len() {
                assert(ty[i] == '[');
            } else if ty.len() < i < ty.len() + 1 + name.len() {
                assert(is_name_char(name[i - ty.len() - 1]));
            }
        }
    }
    assert forall|i: int| 0 <= i < word.len() implies !crate::text::is_white(#[trigger] word[i]) by {
        if i < name.len() {
            assert(is_name_char(name[i]));
        }
    }
    lemma_one_word(ty);
    lemma_one_word(word);
    crate::property::law_words_part_at_space(ty, ' ', word);
    assert(ty.push(' ') + word =~= rest);
    let w = crate::property::words(rest);
    assert(w =~= seq![ty] + seq![word]);
    assert(w[1] == word);
    assert(word.drop_last() =~= name);
    assert(word.last() == ';');
    assert(is_name_char(name[name.len() - 1]));
    assert(unterminated(name) == name);
    assert(unterminated(word) == name);
}

/// Names get their locations in the order of names, so that both stages number
/// them alike.
pub proof fn law_locations_in_order(names: Set<Seq<char>>, a: Seq<char>, b: Seq<char>)
    requires
        names.finite(),
        names.contains(a),
        crate::text::before(a, b),
    ensures
        location_of(names, a) < location_of(names, b),
{
    lemma_fewer(names, a, b);
}

/// A line that declares nothing stays as it is. One that declares a name is put
/// behind its location, its indent ahead of that.
pub proof fn law_pinned_line(line: Seq<char>, names: Set<Seq<char>>)
    ensures
        varying_name(line) is None ==> pinned_line(line, names) == line,
        varying_name(line) matches Some(n) ==> exists|indent: Seq<char>, rest: Seq<char>|
            line == indent + rest && crate::text::trimmed_start(line) == rest && pinned_line(
                line,
                names,
            ) == #[trigger] (indent + "layout(location = "@ + crate::json::decimal(
                location_of(names, n),
            ) + ") "@ + rest),
{
    if varying_name(line) is Some {
        let indent = indent_of(line);
        let rest = crate::text::trimmed_start(line);
        lemma_indent(line);
        let n = varying_name(line)->0;
        assert(pinned_line(line, names) == indent + "layout(location = "@ + crate::json::decimal(
            location_of(names, n),
        ) + ") "@ + rest);
    }
}

/// A line is its indent and what follows.
proof fn lemma_indent(line: Seq<char>)
    ensures
        crate::text::trimmed_start(line).len() <= line.len(),
        line == indent_of(line) + crate::text::trimmed_start(line),
    decreases line.len(),
{
    let t = crate::text::trimmed_start(line);
    if line.len() > 0 && crate::text::is_white(line[0]) {
        let rest = line.drop_first();
        lemma_indent(rest);
        assert(indent_of(line) =~= seq![line[0]] + indent_of(rest));
        assert(line =~= seq![line[0]] + rest);
        assert(line =~= indent_of(line) + t);
    } else {
        assert(indent_of(line) =~= Seq::<char>::empty());
        assert(line =~= indent_of(line) + t);
    }
}

/// The declarations that are dropped from a fragment source are those of a name
/// that the vertex source does not declare and that stands nowhere else. Other
/// lines stay, in order, and a source without such a declaration stays as it is.
pub proof fn law_dead_declarations_go(vs: Seq<char>, fs: Seq<char>)
    ensures
        ({
            let live = |line: Seq<char>|
                varying_name(line) is None || names_in(lines_of(vs)).contains(
                    varying_name(line)->0,
                ) || occurrences(fs, varying_name(line)->0) != 1;
            &&& (forall|i: int| 0 <= i < lines_of(fs).len() ==> live(#[trigger] lines_of(fs)[i]))
                ==> stripped(vs, fs) == fs
            &&& (exists|i: int| 0 <= i < lines_of(fs).len() && !live(#[trigger] lines_of(fs)[i]))
                ==> stripped(vs, fs) == crate::text::joined(lines_of(fs).filter(live), '\n')
        }),
{
    let live = |line: Seq<char>|
        varying_name(line) is None || names_in(lines_of(vs)).contains(varying_name(line)->0)
            || occurrences(fs, varying_name(line)->0) != 1;
    let kept = |line: Seq<char>| !is_dead(line, vs, fs);
    assert forall|line: Seq<char>| live(line) == !(#[trigger] is_dead(line, vs, fs)) by {}
    assert(live =~= kept);
    if exists|i: int| 0 <= i < lines_of(fs).len() && !live(#[trigger] lines_of(fs)[i]) {
        let i = choose|i: int| 0 <= i < lines_of(fs).len() && !live(#[trigger] lines_of(fs)[i]);
        assert(is_dead(lines_of(fs)[i], vs, fs));
    } else {
        assert forall|i: int| 0 <= i < lines_of(fs).len() implies !is_dead(
            #[trigger] lines_of(fs)[i],
            vs,
            fs,
        ) by {
            assert(live(lines_of(fs)[i]));
        }
    }
}

/// A text stands in another as often as it can be found one after the other: not
/// at all where it stands nowhere, and once more in front of what it is put.
pub proof fn law_occurrences(s: Seq<char>, pattern: Seq<char>)
    requires
        pattern.len() > 0,
    ensures
        occurrences(s, pattern) == 0 <==> forall|i: int|
            0 <= i <= s.len() ==> !crate::text::begins(#[trigger] s.skip(i), pattern),
        occurrences(pattern + s, pattern) == occurrences(s, pattern) + 1,
        occurrences(s, pattern) * pattern.len() <= s.len(),
    decreases s.len(),
{
    assert((pattern + s).take(pattern.len() as int) =~= pattern);
    assert((pattern + s).skip(pattern.len() as int) =~= s);
    lemma_occurrences_bound(s, pattern);
    lemma_occurrences_none(s, pattern);
}

/// Occurrences do not overlap.
proof fn lemma_occurrences_bound(s: Seq<char>, pattern: Seq<char>)
    requires
        pattern.len() > 0,
    ensures
        occurrences(s, pattern) * pattern.len() <= s.len(),
    decreases s.len(),
{
    if s.len() >= pattern.len() {
        if crate::text::begins(s, pattern) {
            let rest = s.skip(pattern.len() as int);
            lemma_occurrences_bound(rest, pattern);
            assert((1 + occurrences(rest, pattern)) * pattern.len() == occurrences(rest, pattern)
                * pattern.len() + pattern.len()) by (nonlinear_arith);
        } else {
            lemma_occurrences_bound(s.skip(1), pattern);
        }
    } else {
        assert(0 * pattern.len() == 0) by (nonlinear_arith);
    }
}

/// A text occurs where it stands somewhere.
proof fn lemma_occurrences_none(s: Seq<char>, pattern: Seq<char>)
    requires
        pattern.len() > 0,
    ensures
        occurrences(s, pattern) == 0 <==> forall|i: int|
            0 <= i <= s.len() ==> !crate::text::begins(#[trigger] s.skip(i), pattern),
    decreases s.len(),
{
    assert(s.skip(0) =~= s);
    if s.len() < pattern.len() {
    } else if crate::text::begins(s, pattern) {
        assert(crate::text::begins(s.skip(0), pattern));
    } else {
        let t = s.skip(1);
        lemma_occurrences_none(t, pattern);
        if occurrences(t, pattern) == 0 {
            assert forall|i: int| 0 <= i <= s.len() implies !crate::text::begins(
                #[trigger] s.skip(i),
                pattern,
            ) by {
                if i > 0 {
                    assert(t.skip(i - 1) =~= s.skip(i));
                }
            }
        } else {
            let i = choose|i: int|
                0 <= i <= t.len() && crate::text::begins(#[trigger] t.skip(i), pattern);
            assert(s.skip(i + 1) =~= t.skip(i));
        }
    }
}

/// A replaced text is as much longer as its occurrences are; one that is at the
/// front is replaced there, and a text without it stays.
pub proof fn law_text_is_replaced(s: Seq<char>, from: Seq<char>, to: Seq<char>)
    requires
        from.len() > 0,
    ensures
        replaced_text(from + s, from, to) == to + replaced_text(s, from, to),
        occurrences(s, from) == 0 ==> replaced_text(s, from, to) == s,
        replaced_text(s, from, to).len() + occurrences(s, from) * from.len() == s.len()
            + occurrences(s, from) * to.len(),
{
    assert((from + s).take(from.len() as int) =~= from);
    assert((from + s).skip(from.len() as int) =~= s);
    lemma_replaced_len(s, from, to);
    if occurrences(s, from) == 0 {
        lemma_replace_absent(s, from, to);
    }
}

/// The length of a replaced text.
proof fn lemma_replaced_len(s: Seq<char>, from: Seq<char>, to: Seq<char>)
    requires
        from.len() > 0,
    ensures
        replaced_text(s, from, to).len() + occurrences(s, from) * from.len() == s.len()
            + occurrences(s, from) * to.len(),
    decreases s.len(),
{
    if s.len() < from.len() {
        assert(0 * from.len() == 0 && 0 * to.len() == 0) by (nonlinear_arith);
    } else if crate::text::begins(s, from) {
        let rest = s.skip(from.len() as int);
        lemma_replaced_len(rest, from, to);
        let n = occurrences(rest, from);
        assert((1 + n) * from.len() == n * from.len() + from.len()) by (nonlinear_arith);
        assert((1 + n) * to.len() == n * to.len() + to.len()) by (nonlinear_arith);
    } else {
        lemma_replaced_len(s.skip(1), from, to);
    }
}

/// What follows `const` is a function where a bracket opens ahead of the first
/// `=` or `;`.
pub proof fn law_function_opens_first(s: Seq<char>)
    ensures
        opens_first(s) <==> exists|i: int|
            0 <= i < s.len() && #[trigger] s[i] == '(' && forall|k: int|
                0 <= k < i ==> #[trigger] s[k] != '=' && s[k] != ';',
    decreases s.len(),
{
    if s.len() > 0 {
        let t = s.skip(1);
        law_function_opens_first(t);
        if s[0] != '(' && s[0] != '=' && s[0] != ';' && opens_first(t) {
            let i = choose|i: int|
                0 <= i < t.len() && #[trigger] t[i] == '(' && forall|k: int|
                    0 <= k < i ==> #[trigger] t[k] != '=' && t[k] != ';';
            assert(s[i + 1] == '(');
            assert forall|k: int| 0 <= k < i + 1 implies #[trigger] s[k] != '=' && s[k] != ';' by {
                if k > 0 {
                    assert(t[k - 1] == s[k]);
                }
            }
        }
        if exists|i: int|
            0 <= i < s.len() && #[trigger] s[i] == '(' && forall|k: int|
                0 <= k < i ==> #[trigger] s[k] != '=' && s[k] != ';' {
            let i = choose|i: int|
                0 <= i < s.len() && #[trigger] s[i] == '(' && forall|k: int|
                    0 <= k < i ==> #[trigger] s[k] != '=' && s[k] != ';';
            if i > 0 {
                assert(s[0] != '=' && s[0] != ';');
                assert(t[i - 1] == '(');
                assert forall|k: int| 0 <= k < i - 1 implies #[trigger] t[k] != '=' && t[k]
                    != ';' by {
                    assert(t[k] == s[k + 1]);
                }
            }
        }
    }
}

/// `const` goes where it stands before a function, and nothing else of a line
/// does.
pub proof fn law_const_goes_before_functions(rest: Seq<char>)
    ensures
        opens_first(rest) ==> plain_line("const "@ + rest) == rest,
        !opens_first(rest) ==> plain_line("const "@ + rest) == "const "@ + rest,
        !crate::text::begins(crate::text::trimmed_start(rest), "const "@) ==> plain_line(rest)
            == rest,
{
    let line = "const "@ + rest;
    reveal_strlit("const ");
    assert(line[0] == 'c');
    assert(crate::text::trimmed_start(line) == line);
    assert(line.take("const "@.len() as int) =~= "const "@);
    assert(line.skip("const "@.len() as int) =~= rest);
    assert(indent_of(line) =~= Seq::<char>::empty());
    assert(indent_of(line) + rest =~= rest);
}

/// Lines hold no line feed. A text whose lines end in line feeds alone is its
/// lines with a line feed between them, and one at its end where it has one.
pub proof fn law_lines_of_text(s: Seq<char>)
    requires
        !s.contains('\r'),
        s.len() > 0,
    ensures
        forall|i: int|
            0 <= i < lines_of(s).len() ==> !(#[trigger] lines_of(s)[i]).contains('\n'),
        s.last() != '\n' ==> crate::text::joined(lines_of(s), '\n') == s,
        s.last() == '\n' ==> crate::text::joined(lines_of(s), '\n').push('\n') == s,
{
    let p = crate::text::pieces(s, '\n');
    crate::text::law_pieces_rejoin(s, '\n');
    lemma_pieces_of(s, '\n');
    assert forall|i: int| 0 <= i < p.len() implies chomped(#[trigger] p[i]) == p[i] by {
        if p[i].len() > 0 && p[i].last() == '\r' {
            assert(p[i].contains('\r'));
            assert(s.contains('\r'));
        }
    }
    if p.last().len() == 0 {
        assert(lines_of(s) =~= p.drop_last());
        assert(p.len() > 1);
        assert(crate::text::joined(p, '\n') == crate::text::joined(p.drop_last(), '\n').push('\n')
            + p.last());
        assert(crate::text::joined(p.drop_last(), '\n').push('\n') + p.last()
            =~= crate::text::joined(p.drop_last(), '\n').push('\n'));
        assert(s.last() == '\n');
    } else {
        assert(lines_of(s) =~= p);
        assert(p[p.len() - 1].last() != '\n') by {
            assert(p.last().contains(p.last().last()));
        }
        assert(s.last() == p.last().last());
    }
}

/// Pieces are made of the characters of their text.
proof fn lemma_pieces_of(s: Seq<char>, sep: char)
    ensures
        forall|i: int, c: char|
            0 <= i < crate::text::pieces(s, sep).len() && (
            #[trigger] crate::text::pieces(s, sep)[i].contains(c)) ==> s.contains(c),
    decreases s.len(),
{
    if s.len() > 0 {
        let t = s.drop_last();
        lemma_pieces_of(t, sep);
        let before = crate::text::pieces(t, sep);
        let now = crate::text::pieces(s, sep);
        crate::text::law_pieces_rejoin(t, sep);
        assert forall|i: int, c: char|
            0 <= i < now.len() && (#[trigger] now[i].contains(c)) implies s.contains(c) by {
            let k = choose|k: int| 0 <= k < now[i].len() && now[i][k] == c;
            if s.last() == sep {
                if i < before.len() {
                    assert(before[i].contains(c));
                    let j = choose|j: int| 0 <= j < t.len() && t[j] == c;
                    assert(s[j] == c);
                }
            } else if i < before.len() - 1 {
                assert(now[i] == before[i]);
                assert(before[i].contains(c));
                let j = choose|j: int| 0 <= j < t.len() && t[j] == c;
                assert(s[j] == c);
            } else if k < before.last().len() {
                assert(before.last()[k] == c);
                assert(before[before.len() - 1].contains(c));
                let j = choose|j: int| 0 <= j < t.len() && t[j] == c;
                assert(s[j] == c);
            } else {
                assert(s[s.len() - 1] == c);
            }
        }
    }
}

/// A line declares an array where it begins with `varying` and a bracket opens
/// behind that; such a line declares no name.
pub proof fn law_arrays_declare_no_name(line: Seq<char>)
    ensures
        declares_array(line) ==> varying_name(line) is None,
        declares_array(line) ==> crate::text::begins(
            crate::text::trimmed_start(line),
            "varying "@,
        ),
        crate::text::begins(crate::text::trimmed_start(line), "varying "@)
            && crate::text::trimmed_start(line).skip("varying "@.len() as int).contains('[')
            ==> declares_array(line),
        !crate::text::begins(crate::text::trimmed_start(line), "varying "@) ==> !declares_array(
            line,
        ) && varying_name(line) is None,
{
}

} // verus!
