//! Extremes and stable order of floating-point keys.
use vstd::prelude::*;

use crate::ieee::Double;

verus! {

/// No key is a NaN, so every two keys compare.
pub open spec fn comparable(keys: Seq<Double>) -> bool {
    forall|i: int| 0 <= i < keys.len() ==> !(#[trigger] keys[i]).nan()
}

/// Position of the largest key, the last one where several are equal.
pub open spec fn last_max(keys: Seq<Double>) -> int
    decreases keys.len(),
{
    if keys.len() <= 1 {
        0
    } else {
        let r = last_max(keys.drop_last());
        if keys.last().units() >= keys[r].units() {
            keys.len() - 1
        } else {
            r
        }
    }
}

/// No key is larger than the one that `last_max` finds, and none behind it is
/// as large.
pub proof fn law_last_max(keys: Seq<Double>)
    requires
        keys.len() > 0,
    ensures
        0 <= last_max(keys) < keys.len(),
        forall|j: int|
            0 <= j < keys.len() ==> (#[trigger] keys[j]).units() <= keys[last_max(keys)].units(),
        forall|j: int|
            last_max(keys) < j < keys.len() ==> (#[trigger] keys[j]).units() < keys[last_max(
                keys,
            )].units(),
    decreases keys.len(),
{
    if keys.len() > 1 {
        let front = keys.drop_last();
        law_last_max(front);
        let r = last_max(front);
        assert(front[r] == keys[r]);
        assert forall|j: int| 0 <= j < keys.len() implies (#[trigger] keys[j]).units()
            <= keys[last_max(keys)].units() by {
            if j < front.len() {
                assert(front[j] == keys[j]);
            }
        }
        assert forall|j: int| last_max(keys) < j < keys.len() implies (#[trigger] keys[j]).units()
            < keys[last_max(keys)].units() by {
            if j < front.len() {
                assert(front[j] == keys[j]);
            }
        }
    }
}

/// Position of the largest key, the last one where several are equal.
pub fn last_max_index(keys: &Vec<Double>) -> (r: usize)
    requires
        keys.len() > 0,
        keys.len() > 1 ==> comparable(keys@),
    ensures
        r == last_max(keys@),
        r < keys.len(),
{
    let mut r: usize = 0;
    let mut i: usize = 1;
    assert(keys@.take(1).len() == 1);
    while i < keys.len()
        invariant
            1 <= i <= keys.len(),
            r < i,
            keys.len() > 1 ==> comparable(keys@),
            r == last_max(keys@.take(i as int)),
        decreases keys.len() - i,
    {
        proof {
            let t = keys@.take(i + 1);
            assert(t.drop_last() =~= keys@.take(i as int));
            assert(t.last() == keys@[i as int]);
            assert(t[r as int] == keys@[r as int]);
        }
        if keys[r].le(&keys[i]) {
            r = i;
        }
        i = i + 1;
    }
    assert(keys@.take(keys@.len() as int) =~= keys@);
    r
}

/// Item `a` comes before item `b`: a smaller key, or the same key and an earlier
/// place.
pub open spec fn precedes(keys: Seq<Double>, a: int, b: int) -> bool {
    keys[a].units() < keys[b].units() || (keys[a].units() == keys[b].units() && a < b)
}

/// `order` lists every position once, in stable order of the keys.
pub open spec fn is_stable_order(keys: Seq<Double>, order: Seq<usize>) -> bool {
    &&& order.len() == keys.len()
    &&& forall|i: int| 0 <= i < order.len() ==> (#[trigger] order[i]) < keys.len()
    &&& forall|x: usize| x < keys.len() ==> order.contains(x)
    &&& forall|i: int, j: int|
        #![trigger order[i], order[j]]
        0 <= i < j < order.len() ==> precedes(keys, order[i] as int, order[j] as int)
}

/// The positions of the keys in stable order.
pub open spec fn stable_order(keys: Seq<Double>) -> Seq<usize> {
    choose|order: Seq<usize>| is_stable_order(keys, order)
}

/// Keys have one stable order only.
pub proof fn law_stable_order_is_unique(keys: Seq<Double>, a: Seq<usize>, b: Seq<usize>)
    requires
        is_stable_order(keys, a),
        is_stable_order(keys, b),
    ensures
        a == b,
{
    lemma_prefix_agrees(keys, a, b, a.len() as int);
    assert(a =~= b);
}

proof fn lemma_prefix_agrees(keys: Seq<Double>, a: Seq<usize>, b: Seq<usize>, n: int)
    requires
        is_stable_order(keys, a),
        is_stable_order(keys, b),
        0 <= n <= a.len(),
    ensures
        forall|i: int| 0 <= i < n ==> a[i] == b[i],
    decreases n,
{
    if n > 0 {
        lemma_prefix_agrees(keys, a, b, n - 1);
        let p = n - 1;
        if a[p] != b[p] {
            assert(b.contains(a[p]));
            let q = choose|q: int| 0 <= q < b.len() && b[q] == a[p];
            assert(q > p) by {
                if q < p {
                    assert(a[q] == b[q]);
                    assert(precedes(keys, a[q] as int, a[p] as int));
                }
            }
            assert(precedes(keys, b[p] as int, b[q] as int));
            assert(a.contains(b[p]));
            let t = choose|t: int| 0 <= t < a.len() && a[t] == b[p];
            assert(t > p) by {
                if t < p {
                    assert(a[t] == b[t]);
                    assert(precedes(keys, b[t] as int, b[p] as int));
                }
            }
            assert(precedes(keys, a[p] as int, a[t] as int));
        }
    }
}

/// Where a further key belongs in an order: in front of it stand the items that
/// precede it, behind it those that it precedes.
proof fn lemma_place_in_order(keys: Seq<Double>, order: Seq<usize>, n: int) -> (p: int)
    requires
        keys.len() > 0,
        is_stable_order(keys.drop_last(), order),
        0 <= n <= order.len(),
    ensures
        0 <= p <= n,
        forall|i: int|
            0 <= i < p ==> precedes(keys, #[trigger] order[i] as int, keys.len() - 1),
        forall|i: int|
            p <= i < n ==> precedes(keys, keys.len() - 1, #[trigger] order[i] as int),
    decreases n,
{
    let front = keys.drop_last();
    if n == 0 {
        0
    } else {
        let last = order[n - 1] as int;
        if keys[last].units() <= keys.last().units() {
            assert forall|i: int| 0 <= i < n implies precedes(
                keys,
                #[trigger] order[i] as int,
                keys.len() - 1,
            ) by {
                if i < n - 1 {
                    assert(precedes(front, order[i] as int, order[n - 1] as int));
                }
            }
            n
        } else {
            lemma_place_in_order(keys, order, n - 1)
        }
    }
}

/// Keys have a stable order, as far as positions go.
pub proof fn law_stable_order_exists(keys: Seq<Double>)
    requires
        keys.len() <= usize::MAX,
    ensures
        is_stable_order(keys, stable_order(keys)),
    decreases keys.len(),
{
    if keys.len() == 0 {
        assert(is_stable_order(keys, Seq::<usize>::empty()));
    } else {
        let front = keys.drop_last();
        law_stable_order_exists(front);
        let order = stable_order(front);
        let p = lemma_place_in_order(keys, order, order.len() as int);
        let m = (keys.len() - 1) as usize;
        let longer = order.insert(p, m);
        assert forall|x: usize| x < keys.len() implies longer.contains(x) by {
            if x == m {
                assert(longer[p] == m);
            } else {
                assert(order.contains(x));
                let i = choose|i: int| 0 <= i < order.len() && order[i] == x;
                if i < p {
                    assert(longer[i] == x);
                } else {
                    assert(longer[i + 1] == x);
                }
            }
        }
        assert forall|i: int| 0 <= i < longer.len() implies (#[trigger] longer[i]) < keys.len() by {
            if i < p {
                assert(order[i] < front.len());
            } else if i > p {
                assert(order[i - 1] < front.len());
            }
        }
        assert forall|i: int, j: int|
            #![trigger longer[i], longer[j]]
            0 <= i < j < longer.len() implies precedes(keys, longer[i] as int, longer[j] as int) by {
            let a = if i < p {
                i
            } else {
                i - 1
            };
            let b = if j < p {
                j
            } else {
                j - 1
            };
            if i == p {
                assert(longer[j] == order[b]);
            } else if j == p {
                assert(longer[i] == order[a]);
            } else {
                assert(longer[i] == order[a] && longer[j] == order[b]);
                assert(precedes(front, order[a] as int, order[b] as int));
            }
        }
        assert(is_stable_order(keys, longer));
    }
}

fn comes_first(keys: &Vec<Double>, a: usize, b: usize) -> (r: bool)
    requires
        comparable(keys@),
        a < keys.len(),
        b < keys.len(),
    ensures
        r == precedes(keys@, a as int, b as int),
{
    if keys[a].lt(&keys[b]) {
        true
    } else if keys[b].lt(&keys[a]) {
        false
    } else {
        a < b
    }
}

spec fn ascending(keys: Seq<Double>, v: Seq<usize>) -> bool {
    &&& forall|i: int| 0 <= i < v.len() ==> (#[trigger] v[i]) < keys.len()
    &&& forall|i: int, j: int|
        #![trigger v[i], v[j]]
        0 <= i < j < v.len() ==> precedes(keys, v[i] as int, v[j] as int)
}

/// Both lists hold the same items.
spec fn same_items(a: Seq<usize>, b: Seq<usize>) -> bool {
    forall|x: usize| a.contains(x) <==> b.contains(x)
}

/// Merge two ordered lists without a common item.
fn merge(keys: &Vec<Double>, a: &Vec<usize>, b: &Vec<usize>) -> (r: Vec<usize>)
    requires
        comparable(keys@),
        ascending(keys@, a@),
        ascending(keys@, b@),
        forall|i: int, j: int|
            #![trigger a@[i], b@[j]]
            0 <= i < a.len() && 0 <= j < b.len() ==> a@[i] != b@[j],
        a.len() + b.len() <= usize::MAX,
    ensures
        ascending(keys@, r@),
        r.len() == a.len() + b.len(),
        same_items(r@, a@ + b@),
{
    let mut r: Vec<usize> = Vec::new();
    let mut i: usize = 0;
    let mut j: usize = 0;
    while i < a.len() || j < b.len()
        invariant
            comparable(keys@),
            ascending(keys@, a@),
            ascending(keys@, b@),
            forall|p: int, q: int|
                #![trigger a@[p], b@[q]]
                0 <= p < a.len() && 0 <= q < b.len() ==> a@[p] != b@[q],
            i <= a.len(),
            j <= b.len(),
            r.len() == i + j,
            a.len() + b.len() <= usize::MAX,
            ascending(keys@, r@),
            forall|p: int, q: int|
                #![trigger r@[p], a@[q]]
                0 <= p < r.len() && i <= q < a.len() ==> precedes(
                    keys@,
                    r@[p] as int,
                    a@[q] as int,
                ),
            forall|p: int, q: int|
                #![trigger r@[p], b@[q]]
                0 <= p < r.len() && j <= q < b.len() ==> precedes(
                    keys@,
                    r@[p] as int,
                    b@[q] as int,
                ),
            forall|x: usize| #[trigger]
                r@.contains(x) <==> (a@.take(i as int).contains(x) || b@.take(j as int).contains(x)),
        decreases a.len() - i + b.len() - j,
    {
        let take_a = if i == a.len() {
            false
        } else if j == b.len() {
            true
        } else {
            comes_first(keys, a[i], b[j])
        };
        let x = if take_a {
            a[i]
        } else {
            b[j]
        };
        let ghost before = r@;
        r.push(x);
        proof {
            assert(r@.len() == before.len() + 1);
            assert forall|y: usize| #[trigger] r@.contains(y) <==> (before.contains(y) || y == x) by {
                if before.contains(y) {
                    let w = choose|w: int| 0 <= w < before.len() && before[w] == y;
                    assert(r@[w] == y);
                }
                assert(r@[before.len() as int] == x);
            }
            if take_a {
                lemma_take_more(a@, i as int);
            } else {
                lemma_take_more(b@, j as int);
            }
            let (i2, j2) = if take_a {
                (i + 1, j as int)
            } else {
                (i as int, j + 1)
            };
            assert forall|y: usize| #[trigger] r@.contains(y) <==> (a@.take(i2).contains(y)
                || b@.take(j2).contains(y)) by {
                assert(before.contains(y) <==> (a@.take(i as int).contains(y) || b@.take(
                    j as int,
                ).contains(y)));
            }
        }
        if take_a {
            i = i + 1;
        } else {
            j = j + 1;
        }
    }
    proof {
        assert(a@.take(i as int) =~= a@);
        assert(b@.take(j as int) =~= b@);
        assert forall|x: usize| r@.contains(x) <==> (a@ + b@).contains(x) by {
            if a@.contains(x) {
                let w = choose|w: int| 0 <= w < a@.len() && a@[w] == x;
                assert((a@ + b@)[w] == x);
            }
            if b@.contains(x) {
                let w = choose|w: int| 0 <= w < b@.len() && b@[w] == x;
                assert((a@ + b@)[w + a@.len()] == x);
            }
        }
    }
    r
}

proof fn lemma_take_more(s: Seq<usize>, i: int)
    requires
        0 <= i < s.len(),
    ensures
        forall|y: usize| #[trigger]
            s.take(i + 1).contains(y) <==> (s.take(i).contains(y) || y == s[i]),
{
    let short = s.take(i);
    let long = s.take(i + 1);
    assert forall|y: usize| #[trigger] long.contains(y) <==> (short.contains(y) || y == s[i]) by {
        if short.contains(y) {
            let w = choose|w: int| 0 <= w < short.len() && short[w] == y;
            assert(long[w] == y);
        }
        assert(long[i] == s[i]);
        if long.contains(y) {
            let w = choose|w: int| 0 <= w < long.len() && long[w] == y;
            if w < i {
                assert(short[w] == y);
            }
        }
    }
}

/// The positions `[from, to)` in order of their keys.
fn sort_range(keys: &Vec<Double>, from: usize, to: usize) -> (r: Vec<usize>)
    requires
        comparable(keys@),
        from <= to <= keys.len(),
    ensures
        ascending(keys@, r@),
        r.len() == to - from,
        forall|x: usize| r@.contains(x) <==> from <= x < to,
    decreases to - from,
{
    let mut r: Vec<usize> = Vec::new();
    if to - from == 0 {
        return r;
    }
    if to - from == 1 {
        r.push(from);
        assert(r@[0] == from);
        return r;
    }
    let mid = from + (to - from) / 2;
    let a = sort_range(keys, from, mid);
    let b = sort_range(keys, mid, to);
    proof {
        assert forall|i: int, j: int|
            #![trigger a@[i], b@[j]]
            0 <= i < a.len() && 0 <= j < b.len() implies a@[i] != b@[j] by {
            assert(a@.contains(a@[i]));
            assert(b@.contains(b@[j]));
        }
    }
    r = merge(keys, &a, &b);
    proof {
        assert forall|x: usize| r@.contains(x) <==> from <= x < to by {
            assert(r@.contains(x) <==> (a@ + b@).contains(x));
            if a@.contains(x) {
                let w = choose|w: int| 0 <= w < a@.len() && a@[w] == x;
                assert((a@ + b@)[w] == x);
            }
            if b@.contains(x) {
                let w = choose|w: int| 0 <= w < b@.len() && b@[w] == x;
                assert((a@ + b@)[w + a@.len()] == x);
            }
            if (a@ + b@).contains(x) {
                let w = choose|w: int| 0 <= w < (a@ + b@).len() && (a@ + b@)[w] == x;
                if w < a@.len() {
                    assert(a@.contains(a@[w]));
                } else {
                    assert(b@.contains(b@[w - a@.len()]));
                }
            }
        }
    }
    r
}

/// The positions of the keys in stable order: equal keys keep their places.
pub fn stable_order_of(keys: &Vec<Double>) -> (r: Vec<usize>)
    requires
        comparable(keys@),
    ensures
        is_stable_order(keys@, r@),
        r@ == stable_order(keys@),
{
    let r = sort_range(keys, 0, keys.len());
    proof {
        assert(is_stable_order(keys@, r@));
        law_stable_order_is_unique(keys@, r@, stable_order(keys@));
    }
    r
}

} // verus!
