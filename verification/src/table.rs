//! A map from names to values, kept as a list in the order of its names.
use vstd::prelude::*;

use crate::text::{comes_before, same};

verus! {

/// A map from names to values. The entries stand in the order of their names
/// and no name occurs twice.
#[derive(Debug)]
pub struct Table<V> {
    /// The entries, by name.
    pub entries: Vec<(String, V)>,
}

/// `k` is the name of entry `i`.
pub open spec fn named<V>(e: Seq<(String, V)>, k: Seq<char>, i: int) -> bool {
    0 <= i < e.len() && e[i].0@ == k
}

/// The names stand in order, each once.
pub open spec fn ordered<V>(e: Seq<(String, V)>) -> bool {
    forall|i: int, j: int| 0 <= i < j < e.len() ==> crate::text::before(#[trigger] e[i].0@, #[trigger] e[j].0@)
}

/// The map that a list of entries with distinct names stands for.
pub open spec fn map_of<V>(e: Seq<(String, V)>) -> Map<Seq<char>, V> {
    Map::new(
        |k: Seq<char>| exists|i: int| named(e, k, i),
        |k: Seq<char>| e[choose|i: int| named(e, k, i)].1,
    )
}

/// In an ordered list the map holds each entry's value under its name.
pub proof fn lemma_entry<V>(e: Seq<(String, V)>, i: int)
    requires
        ordered(e),
        0 <= i < e.len(),
    ensures
        map_of(e).dom().contains(e[i].0@),
        map_of(e)[e[i].0@] == e[i].1,
{
    let k = e[i].0@;
    assert(named(e, k, i));
    let j = choose|j: int| named(e, k, j);
    assert(named(e, k, j));
    if i < j {
        assert(crate::text::before(e[i].0@, e[j].0@));
        crate::text::lemma_before_total(e[i].0@, e[j].0@);
    } else if j < i {
        assert(crate::text::before(e[j].0@, e[i].0@));
        crate::text::lemma_before_total(e[j].0@, e[i].0@);
    }
}

/// One more entry of an ordered list is one more insertion.
pub proof fn lemma_map_step<V>(e: Seq<(String, V)>, i: int)
    requires
        ordered(e),
        0 <= i < e.len(),
    ensures
        map_of(e.take(i + 1)) == map_of(e.take(i)).insert(e[i].0@, e[i].1),
{
    let a = e.take(i);
    let b = e.take(i + 1);
    let k0 = e[i].0@;
    assert(ordered(a)) by {
        assert forall|x: int, y: int| 0 <= x < y < a.len() implies crate::text::before(
            #[trigger] a[x].0@,
            #[trigger] a[y].0@,
        ) by {
            assert(a[x] == e[x] && a[y] == e[y]);
        }
    }
    assert(ordered(b)) by {
        assert forall|x: int, y: int| 0 <= x < y < b.len() implies crate::text::before(
            #[trigger] b[x].0@,
            #[trigger] b[y].0@,
        ) by {
            assert(b[x] == e[x] && b[y] == e[y]);
        }
    }
    assert(b[i] == e[i]);
    lemma_entry(b, i);
    assert forall|k: Seq<char>| map_of(b).dom().contains(k) == map_of(a).insert(
        k0,
        e[i].1,
    ).dom().contains(k) by {
        if map_of(b).dom().contains(k) {
            let j = choose|j: int| named(b, k, j);
            if j < i {
                assert(named(a, k, j));
            }
        }
        if map_of(a).dom().contains(k) {
            let j = choose|j: int| named(a, k, j);
            assert(named(b, k, j));
        }
    }
    assert forall|k: Seq<char>| map_of(b).dom().contains(k) implies map_of(b)[k] == map_of(a).insert(
        k0,
        e[i].1,
    )[k] by {
        let j = choose|j: int| named(b, k, j);
        lemma_entry(b, j);
        if j < i {
            assert(a[j] == b[j]);
            lemma_entry(a, j);
            assert(crate::text::before(b[j].0@, b[i].0@));
            crate::text::lemma_before_total(b[j].0@, b[i].0@);
        }
    }
    assert(map_of(b) =~= map_of(a).insert(k0, e[i].1));
}

/// An ordered list has as many names as entries.
proof fn lemma_count<V>(e: Seq<(String, V)>, i: int)
    requires
        ordered(e),
        0 <= i <= e.len(),
    ensures
        map_of(e.take(i)).dom().finite(),
        map_of(e.take(i)).dom().len() == i,
    decreases i,
{
    if i == 0 {
        assert(map_of(e.take(0)).dom() =~= Set::<Seq<char>>::empty());
    } else {
        lemma_count(e, i - 1);
        lemma_map_step(e, i - 1);
        let head = e.take(i - 1);
        let before = map_of(head);
        let k = e[i - 1].0@;
        if before.dom().contains(k) {
            let j = choose|j: int| named(head, k, j);
            assert(crate::text::before(e[j].0@, e[i - 1].0@));
            crate::text::lemma_before_total(e[j].0@, e[i - 1].0@);
        }
        assert(map_of(e.take(i)).dom() =~= before.dom().insert(k));
    }
}

impl<V> Table<V> {
    /// The entries stand in the order of their names, each name once.
    pub open spec fn wf(&self) -> bool {
        ordered(self.entries@)
    }

    /// The empty table.
    pub fn new() -> (t: Self)
        ensures
            t.wf(),
            t@ == Map::<Seq<char>, V>::empty(),
    {
        let t = Table { entries: Vec::new() };
        assert(t@ =~= Map::<Seq<char>, V>::empty());
        t
    }

    /// The number of entries.
    pub fn len(&self) -> (n: usize)
        requires
            self.wf(),
        ensures
            n == self@.dom().len(),
            self@.dom().finite(),
            n == self.entries@.len(),
    {
        proof {
            lemma_count(self.entries@, self.entries@.len() as int);
            assert(self.entries@.take(self.entries@.len() as int) =~= self.entries@);
        }
        self.entries.len()
    }

    /// The first entry whose name does not come before `key`.
    fn lower_bound(&self, key: &str) -> (n: usize)
        requires
            self.wf(),
        ensures
            n <= self.entries@.len(),
            forall|i: int| 0 <= i < n ==> crate::text::before(#[trigger] self.entries@[i].0@, key@),
            forall|i: int|
                n <= i < self.entries@.len() ==> !crate::text::before(#[trigger] self.entries@[i].0@, key@),
    {
        let mut n: usize = 0;
        while n < self.entries.len() && comes_before(self.entries[n].0.as_str(), key)
            invariant
                n <= self.entries@.len(),
                forall|i: int| 0 <= i < n ==> crate::text::before(#[trigger] self.entries@[i].0@, key@),
            decreases self.entries@.len() - n,
        {
            n = n + 1;
        }
        assert forall|i: int| n <= i < self.entries@.len() implies !crate::text::before(
            #[trigger] self.entries@[i].0@,
            key@,
        ) by {
            if n < i && crate::text::before(self.entries@[i].0@, key@) {
                assert(crate::text::before(self.entries@[n as int].0@, self.entries@[i].0@));
                crate::text::lemma_before_transitive(self.entries@[n as int].0@, self.entries@[i].0@, key@);
            }
        }
        n
    }

    /// The value under `key`.
    pub fn get(&self, key: &str) -> (r: Option<&V>)
        requires
            self.wf(),
        ensures
            match r {
                Some(v) => self@.dom().contains(key@) && *v == self@[key@],
                None => !self@.dom().contains(key@),
            },
    {
        match self.position(key) {
            Some(n) => {
                proof {
                    lemma_entry(self.entries@, n as int);
                }
                Some(&self.entries[n].1)
            },
            None => None,
        }
    }

    /// Where the entry of `key` stands.
    pub fn position(&self, key: &str) -> (r: Option<usize>)
        requires
            self.wf(),
        ensures
            match r {
                Some(n) => named(self.entries@, key@, n as int) && self@.dom().contains(key@),
                None => !self@.dom().contains(key@),
            },
    {
        let n = self.lower_bound(key);
        if n < self.entries.len() && same(self.entries[n].0.as_str(), key) {
            assert(named(self.entries@, key@, n as int));
            Some(n)
        } else {
            proof {
                crate::text::lemma_before_total(key@, key@);
                assert forall|i: int| !named(self.entries@, key@, i) by {
                    if named(self.entries@, key@, i) {
                        if i > n {
                            assert(crate::text::before(self.entries@[n as int].0@, self.entries@[i].0@));
                        }
                    }
                }
            }
            None
        }
    }

    /// Put `value` under `key`, in place of what was there.
    pub fn insert(&mut self, key: &str, value: V)
        requires
            old(self).wf(),
        ensures
            final(self).wf(),
            final(self)@ == old(self)@.insert(key@, value),
            old(self)@.dom().contains(key@) ==> final(self).entries@.len() == old(self).entries@.len(),
            !old(self)@.dom().contains(key@) ==> final(self).entries@.len() == old(self).entries@.len()
                + 1,
    {
        let ghost was = self.entries@;
        let n = self.lower_bound(key);
        let found = self.position(key);
        match found {
            Some(at) => {
                let name = self.entries[at].0.clone();
                self.entries.set(at, (name, value));
                let ghost now = self.entries@;
                proof {
                    assert(now =~= was.update(at as int, (name, value)));
                    assert(ordered(now)) by {
                        assert forall|i: int, j: int| 0 <= i < j < now.len() implies crate::text::before(
                            #[trigger] now[i].0@,
                            #[trigger] now[j].0@,
                        ) by {
                            assert(was[i].0@ == now[i].0@ && was[j].0@ == now[j].0@);
                        }
                    }
                    assert(map_of(now) =~= map_of(was).insert(key@, value)) by {
                        assert forall|k: Seq<char>| map_of(now).dom().contains(k) == map_of(was).insert(
                            key@,
                            value,
                        ).dom().contains(k) by {
                            if map_of(now).dom().contains(k) {
                                let i = choose|i: int| named(now, k, i);
                                assert(named(was, k, i));
                            }
                            if map_of(was).dom().contains(k) {
                                let i = choose|i: int| named(was, k, i);
                                assert(named(now, k, i));
                            }
                            assert(named(now, key@, at as int));
                        }
                        assert forall|k: Seq<char>| map_of(now).dom().contains(k) implies map_of(now)[k]
                            == map_of(was).insert(key@, value)[k] by {
                            let i = choose|i: int| named(now, k, i);
                            lemma_entry(now, i);
                            lemma_entry(now, at as int);
                            lemma_entry(was, i);
                        }
                    }
                }
            },
            None => {
                self.entries.insert(n, (key.to_owned(), value));
                let ghost now = self.entries@;
                proof {
                    let item = now[n as int];
                    assert(now =~= was.insert(n as int, item));
                    assert(item.0@ == key@ && item.1 == value);
                    assert forall|i: int| 0 <= i < was.len() implies was[i].0@ != key@ by {
                        if was[i].0@ == key@ {
                            assert(named(was, key@, i));
                        }
                    }
                    assert(ordered(now)) by {
                        assert forall|i: int, j: int| 0 <= i < j < now.len() implies crate::text::before(
                            #[trigger] now[i].0@,
                            #[trigger] now[j].0@,
                        ) by {
                            let oi = if i < n { i } else { i - 1 };
                            let oj = if j < n { j } else { j - 1 };
                            if i == n {
                                assert(now[j] == was[oj]);
                                crate::text::lemma_before_total(was[oj].0@, key@);
                            } else if j == n {
                                assert(now[i] == was[oi]);
                            } else {
                                assert(now[i] == was[oi] && now[j] == was[oj]);
                                assert(crate::text::before(was[oi].0@, was[oj].0@));
                            }
                        }
                    }
                    assert(map_of(now) =~= map_of(was).insert(key@, value)) by {
                        assert(named(now, key@, n as int));
                        lemma_entry(now, n as int);
                        assert forall|k: Seq<char>| map_of(now).dom().contains(k) == map_of(was).insert(
                            key@,
                            value,
                        ).dom().contains(k) by {
                            if map_of(now).dom().contains(k) {
                                let i = choose|i: int| named(now, k, i);
                                if i < n {
                                    assert(named(was, k, i));
                                } else if i > n {
                                    assert(named(was, k, i - 1));
                                }
                            }
                            if map_of(was).dom().contains(k) {
                                let i = choose|i: int| named(was, k, i);
                                assert(named(now, k, if i < n { i } else { i + 1 }));
                            }
                        }
                        assert forall|k: Seq<char>| map_of(now).dom().contains(k) implies map_of(now)[k]
                            == map_of(was).insert(key@, value)[k] by {
                            let i = choose|i: int| named(now, k, i);
                            lemma_entry(now, i);
                            if i < n {
                                lemma_entry(was, i);
                            } else if i > n {
                                lemma_entry(was, i - 1);
                            }
                        }
                    }
                }
            },
        }
    }
}

impl<V> View for Table<V> {
    type V = Map<Seq<char>, V>;

    open spec fn view(&self) -> Map<Seq<char>, V> {
        map_of(self.entries@)
    }
}

} // verus!
