//! The order in which objects draw.
use vstd::prelude::*;

verus! {

/// Object `a` draws before object `b`: by sort order, by declaration among
/// equals.
pub open spec fn draws_before(orders: Seq<i64>, custom: bool, a: int, b: int) -> bool {
    if custom && orders[a] != orders[b] {
        orders[a] < orders[b]
    } else {
        a < b
    }
}

/// `r` lists the first `n` objects, each once, as they draw.
pub open spec fn is_render_order(r: Seq<usize>, orders: Seq<i64>, custom: bool, n: nat) -> bool {
    &&& r.len() == n
    &&& forall|i: int| 0 <= i < r.len() ==> (#[trigger] r[i]) < n
    &&& forall|k: int| 0 <= k < n ==> #[trigger] r.contains(k as usize)
    &&& forall|i: int, j: int|
        0 <= i < j < r.len() ==> draws_before(
            orders,
            custom,
            #[trigger] r[i] as int,
            #[trigger] r[j] as int,
        )
}

/// The order in which objects draw: declaration order or, with `custom`, by
/// sort order, declaration order among equals.
pub fn render_order(orders: &Vec<i64>, custom: bool) -> (out: Vec<usize>)
    ensures
        is_render_order(out@, orders@, custom, orders@.len()),
{
    let mut out: Vec<usize> = Vec::new();
    let mut n: usize = 0;
    while n < orders.len()
        invariant
            n <= orders@.len(),
            is_render_order(out@, orders@, custom, n as nat),
        decreases orders@.len() - n,
    {
        let ghost was = out@;
        let mut at: usize = out.len();
        while at > 0 && custom && orders[out[at - 1]] > orders[n]
            invariant
                at <= out@.len(),
                n < orders@.len(),
                out@ == was,
                is_render_order(was, orders@, custom, n as nat),
                forall|i: int|
                    at <= i < was.len() ==> draws_before(
                        orders@,
                        custom,
                        n as int,
                        #[trigger] was[i] as int,
                    ),
            decreases at,
        {
            assert(was[at - 1] < n);
            at = at - 1;
        }
        proof {
            assert forall|i: int| 0 <= i < at implies draws_before(
                orders@,
                custom,
                #[trigger] was[i] as int,
                n as int,
            ) by {
                assert(was[i] < n);
                assert(was[at - 1] < n);
                if i < at - 1 {
                    assert(draws_before(orders@, custom, was[i] as int, was[at - 1] as int));
                }
            }
        }
        out.insert(at, n);
        proof {
            let now = out@;
            assert(now =~= was.insert(at as int, n));
            assert forall|k: int| 0 <= k < n + 1 implies #[trigger] now.contains(k as usize) by {
                if k < n {
                    assert(was.contains(k as usize));
                    let i = choose|i: int| 0 <= i < was.len() && was[i] == k as usize;
                    assert(now[if i < at { i } else { i + 1 }] == k as usize);
                } else {
                    assert(now[at as int] == n);
                }
            }
            assert forall|i: int, j: int| 0 <= i < j < now.len() implies draws_before(
                orders@,
                custom,
                #[trigger] now[i] as int,
                #[trigger] now[j] as int,
            ) by {
                let oi = if i < at { i } else { i - 1 };
                let oj = if j < at { j } else { j - 1 };
                if i == at {
                    assert(now[j] == was[oj]);
                } else if j == at {
                    assert(now[i] == was[oi]);
                } else {
                    assert(now[i] == was[oi] && now[j] == was[oj]);
                }
            }
            assert forall|i: int| 0 <= i < now.len() implies (#[trigger] now[i]) < n + 1 by {
                if i < at {
                    assert(now[i] == was[i]);
                } else if i > at {
                    assert(now[i] == was[i - 1]);
                }
            }
        }
        n = n + 1;
    }
    out
}

/// Without a custom order, objects draw as they are declared.
pub proof fn law_declaration_order(r: Seq<usize>, orders: Seq<i64>, n: nat)
    requires
        is_render_order(r, orders, false, n),
        n <= usize::MAX,
    ensures
        forall|i: int| 0 <= i < n ==> #[trigger] r[i] == i,
{
    assert forall|i: int| 0 <= i < n implies #[trigger] r[i] == i by {
        lemma_climb(r, orders, n, i);
        lemma_fall(r, orders, n, i);
    }
}

proof fn lemma_climb(r: Seq<usize>, orders: Seq<i64>, n: nat, i: int)
    requires
        is_render_order(r, orders, false, n),
        0 <= i < n,
    ensures
        r[i] >= i,
    decreases i,
{
    if i > 0 {
        lemma_climb(r, orders, n, i - 1);
        assert(draws_before(orders, false, r[i - 1] as int, r[i] as int));
    }
}

proof fn lemma_fall(r: Seq<usize>, orders: Seq<i64>, n: nat, i: int)
    requires
        is_render_order(r, orders, false, n),
        0 <= i < n,
    ensures
        r[i] <= i,
    decreases n - i,
{
    if i < n - 1 {
        lemma_fall(r, orders, n, i + 1);
        assert(draws_before(orders, false, r[i] as int, r[i + 1] as int));
    } else {
        assert(r[i] < n);
    }
}

/// The order is determined by the sort orders: two lists that both say how the
/// objects draw are the same.
pub proof fn law_render_order_unique(
    a: Seq<usize>,
    b: Seq<usize>,
    orders: Seq<i64>,
    custom: bool,
    n: nat,
)
    requires
        is_render_order(a, orders, custom, n),
        is_render_order(b, orders, custom, n),
        n <= usize::MAX,
    ensures
        a == b,
{
    lemma_order_prefix(a, b, orders, custom, n, n as int);
    assert(a =~= b);
}

proof fn lemma_order_prefix(
    a: Seq<usize>,
    b: Seq<usize>,
    orders: Seq<i64>,
    custom: bool,
    n: nat,
    m: int,
)
    requires
        is_render_order(a, orders, custom, n),
        is_render_order(b, orders, custom, n),
        n <= usize::MAX,
        0 <= m <= n,
    ensures
        forall|i: int| 0 <= i < m ==> #[trigger] a[i] == b[i],
    decreases m,
{
    if m > 0 {
        lemma_order_prefix(a, b, orders, custom, n, m - 1);
        let i = m - 1;
        assert(a[i] < n && b[i] < n);
        assert(b.contains((a[i] as int) as usize));
        assert(a.contains((b[i] as int) as usize));
        let x = choose|x: int| 0 <= x < b.len() && b[x] == a[i];
        let y = choose|y: int| 0 <= y < a.len() && a[y] == b[i];
        if x < i {
            assert(a[x] == b[x]);
            assert(draws_before(orders, custom, a[x] as int, a[i] as int));
        }
        if y < i {
            assert(a[y] == b[y]);
            assert(draws_before(orders, custom, b[y] as int, b[i] as int));
        }
        if a[i] != b[i] {
            assert(draws_before(orders, custom, b[i] as int, b[x] as int));
            assert(draws_before(orders, custom, a[i] as int, a[y] as int));
        }
    }
}

/// With a custom order, no object draws before one of a lower sort order, and
/// among objects of one sort order the one declared first draws first. Each
/// object draws once.
pub proof fn law_custom_order(r: Seq<usize>, orders: Seq<i64>, n: nat, i: int, j: int)
    requires
        is_render_order(r, orders, true, n),
        0 <= i < j < n,
    ensures
        orders[r[i] as int] <= orders[r[j] as int],
        orders[r[i] as int] == orders[r[j] as int] ==> r[i] < r[j],
        r[i] != r[j],
{
    assert(draws_before(orders, true, r[i] as int, r[j] as int));
}

/// Every object is among those that draw.
pub proof fn law_every_object_draws(r: Seq<usize>, orders: Seq<i64>, custom: bool, n: nat, k: usize)
    requires
        is_render_order(r, orders, custom, n),
        k < n,
    ensures
        r.len() == n,
        r.contains(k),
{
    assert(r.contains((k as int) as usize));
}

} // verus!
