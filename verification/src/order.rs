//! The order of texts, and lists in that order.

use crate::text::{chars_of, views};
use vstd::prelude::*;

verus! {

/// Whether `a` comes before `b`: the first difference decides, by code point, and a text comes
/// behind its own beginnings.
pub open spec fn text_before(a: Seq<char>, b: Seq<char>) -> bool
    decreases a.len(),
{
    if b.len() == 0 {
        false
    } else if a.len() == 0 {
        true
    } else if a[0] == b[0] {
        text_before(a.skip(1), b.skip(1))
    } else {
        a[0] < b[0]
    }
}

/// Whether `a` comes before `b`.
pub fn comes_before(a: &str, b: &str) -> (r: bool)
    ensures
        r == text_before(a@, b@),
{
    let x = chars_of(a);
    let y = chars_of(b);
    let mut i: usize = 0;
    proof {
        assert(x@.skip(0) =~= x@);
        assert(y@.skip(0) =~= y@);
    }
    while i < x.len() && i < y.len() && x[i] == y[i]
        invariant
            x@ == a@,
            y@ == b@,
            i <= x@.len(),
            i <= y@.len(),
            text_before(a@, b@) == text_before(x@.skip(i as int), y@.skip(i as int)),
        decreases x@.len() - i,
    {
        proof {
            assert(x@.skip(i as int).skip(1) =~= x@.skip(i + 1));
            assert(y@.skip(i as int).skip(1) =~= y@.skip(i + 1));
        }
        i += 1;
    }
    if i == y.len() {
        false
    } else if i == x.len() {
        true
    } else {
        x[i] < y[i]
    }
}

/// Nothing comes before itself, and of two texts at most one comes before the other.
pub proof fn lemma_before_one_way(a: Seq<char>, b: Seq<char>)
    ensures
        !(text_before(a, b) && text_before(b, a)),
        a == b ==> !text_before(a, b),
    decreases a.len(),
{
    if a.len() > 0 && b.len() > 0 && a[0] == b[0] {
        lemma_before_one_way(a.skip(1), b.skip(1));
    }
}

/// Of two different texts one comes before the other.
pub proof fn lemma_before_total(a: Seq<char>, b: Seq<char>)
    ensures
        text_before(a, b) || text_before(b, a) || a == b,
    decreases a.len(),
{
    if a.len() > 0 && b.len() > 0 {
        if a[0] == b[0] {
            lemma_before_total(a.skip(1), b.skip(1));
            if a.skip(1) == b.skip(1) {
                assert(a =~= seq![a[0]] + a.skip(1));
                assert(b =~= seq![b[0]] + b.skip(1));
            }
        }
    } else if a.len() == 0 && b.len() == 0 {
        assert(a =~= b);
    }
}

/// The order is transitive.
pub proof fn lemma_before_chain(a: Seq<char>, b: Seq<char>, c: Seq<char>)
    requires
        text_before(a, b),
        text_before(b, c),
    ensures
        text_before(a, c),
    decreases a.len(),
{
    if a.len() > 0 && a[0] == b[0] && b[0] == c[0] {
        lemma_before_chain(a.skip(1), b.skip(1), c.skip(1));
    }
}

/// Whether no text of the list comes before an earlier one.
pub open spec fn ascending(v: Seq<Seq<char>>) -> bool {
    forall|i: int, j: int| 0 <= i < j < v.len() ==> !text_before(#[trigger] v[j], #[trigger] v[i])
}

proof fn lemma_insert(v: Seq<Seq<char>>, x: Seq<char>, n: int)
    requires
        ascending(v),
        0 <= n <= v.len(),
        n > 0 ==> !text_before(x, v[n - 1]),
        n < v.len() ==> text_before(x, v[n]),
    ensures
        ascending(v.insert(n, x)),
{
    let w = v.insert(n, x);
    assert forall|i: int, j: int| 0 <= i < j < w.len() implies !text_before(
        #[trigger] w[j],
        #[trigger] w[i],
    ) by {
        if i == n {
            lemma_before_one_way(x, v[n]);
            if j > n + 1 {
                if text_before(v[j - 1], x) {
                    lemma_before_chain(v[j - 1], x, v[n]);
                }
            }
        } else if j == n {
            if i < n - 1 {
                lemma_before_total(v[i], v[n - 1]);
                lemma_before_one_way(v[i], v[n - 1]);
                if text_before(x, v[i]) {
                    if v[i] != v[n - 1] {
                        lemma_before_chain(x, v[i], v[n - 1]);
                    }
                }
            }
        } else {
            let a = if i < n {
                i
            } else {
                i - 1
            };
            let b = if j < n {
                j
            } else {
                j - 1
            };
            assert(w[i] == v[a] && w[j] == v[b]);
        }
    }
}

/// The strings in ascending order.
pub fn sort_strings(list: Vec<String>) -> (r: Vec<String>)
    ensures
        ascending(views(r@)),
        views(r@).to_multiset() == views(list@).to_multiset(),
{
    let mut rest = list;
    let mut out: Vec<String> = Vec::new();
    let ghost all = views(list@).to_multiset();
    proof {
        assert(views(out@) =~= Seq::empty());
        assert(views(out@) + views(rest@) =~= views(list@));
    }
    while rest.len() > 0
        invariant
            ascending(views(out@)),
            (views(out@) + views(rest@)).to_multiset() == all,
        decreases rest@.len(),
    {
        let ghost r0 = views(rest@);
        let ghost o0 = views(out@);
        match rest.pop() {
            None => {},
            Some(x) => {
                proof {
                    assert(views(rest@) =~= r0.drop_last());
                    assert(r0.last() == x@);
                }
                let mut n: usize = 0;
                while n < out.len() && !comes_before(x.as_str(), out[n].as_str())
                    invariant
                        n <= out@.len(),
                        views(out@) == o0,
                        n > 0 ==> !text_before(x@, o0[n - 1]),
                    decreases out@.len() - n,
                {
                    n += 1;
                }
                out.insert(n, x);
                proof {
                    lemma_insert(o0, x@, n as int);
                    assert(views(out@) =~= o0.insert(n as int, x@));
                    lemma_multiset_moves(o0, r0, n as int);
                }
            },
        }
    }
    proof {
        assert(views(out@) + views(rest@) =~= views(out@));
    }
    out
}

proof fn lemma_multiset_moves(o: Seq<Seq<char>>, r: Seq<Seq<char>>, n: int)
    requires
        r.len() > 0,
        0 <= n <= o.len(),
    ensures
        (o.insert(n, r.last()) + r.drop_last()).to_multiset() == (o + r).to_multiset(),
{
    broadcast use vstd::seq_lib::group_to_multiset_ensures;

    let x = r.last();
    let a = o.take(n);
    let b = o.skip(n);
    assert(o.insert(n, x) + r.drop_last() =~= a + (seq![x] + (b + r.drop_last())));
    assert(o + r =~= a + (b + r.drop_last() + seq![x]));
    vstd::seq_lib::lemma_multiset_commutative(a, seq![x] + (b + r.drop_last()));
    vstd::seq_lib::lemma_multiset_commutative(a, b + r.drop_last() + seq![x]);
    vstd::seq_lib::lemma_multiset_commutative(seq![x], b + r.drop_last());
    vstd::seq_lib::lemma_multiset_commutative(b + r.drop_last(), seq![x]);
    assert((seq![x] + (b + r.drop_last())).to_multiset() =~= (b + r.drop_last()
        + seq![x]).to_multiset());
}

/// The names in a list of named things.
pub open spec fn names_of<T>(v: Seq<(String, T)>) -> Seq<Seq<char>> {
    Seq::new(v.len(), |i: int| v[i].0@)
}

/// A list in the order of names with `x` at its place in it.
pub open spec fn placed<T>(v: Seq<(String, T)>, x: (String, T)) -> Seq<(String, T)>
    decreases v.len(),
{
    if v.len() == 0 || !text_before(x.0@, v.last().0@) {
        v.push(x)
    } else {
        placed(v.drop_last(), x).push(v.last())
    }
}

/// A list in the order of its names; things with the same name stay in their order.
pub open spec fn by_name<T>(v: Seq<(String, T)>) -> Seq<(String, T)>
    decreases v.len(),
{
    if v.len() == 0 {
        Seq::empty()
    } else {
        placed(by_name(v.drop_last()), v.last())
    }
}

proof fn lemma_placed<T>(v: Seq<(String, T)>, x: (String, T), n: int)
    requires
        0 <= n <= v.len(),
        forall|k: int| n <= k < v.len() ==> text_before(x.0@, (#[trigger] v[k]).0@),
        n > 0 ==> !text_before(x.0@, v[n - 1].0@),
    ensures
        placed(v, x) == v.insert(n, x),
    decreases v.len(),
{
    if n == v.len() {
        assert(v.insert(n, x) =~= v.push(x));
    } else {
        assert(text_before(x.0@, v[v.len() - 1].0@));
        let d = v.drop_last();
        assert forall|k: int| n <= k < d.len() implies text_before(
            x.0@,
            (#[trigger] d[k]).0@,
        ) by {
            assert(d[k] == v[k]);
        }
        lemma_placed(d, x, n);
        assert(d.insert(n, x).push(v.last()) =~= v.insert(n, x));
    }
}

/// Where a thing goes in a list in the order of names.
pub proof fn lemma_place_of<T>(v: Seq<(String, T)>, x: (String, T)) -> (n: int)
    ensures
        0 <= n <= v.len(),
        placed(v, x) == v.insert(n, x),
        n > 0 ==> !text_before(x.0@, v[n - 1].0@),
        n < v.len() ==> text_before(x.0@, v[n].0@),
    decreases v.len(),
{
    if v.len() == 0 || !text_before(x.0@, v.last().0@) {
        assert(v.insert(v.len() as int, x) =~= v.push(x));
        v.len() as int
    } else {
        let n = lemma_place_of(v.drop_last(), x);
        assert(v.drop_last().insert(n, x).push(v.last()) =~= v.insert(n, x));
        n
    }
}

/// A list in the order of its names is in order, and it holds what the list held.
pub proof fn lemma_by_name<T>(v: Seq<(String, T)>)
    ensures
        ascending(names_of(by_name(v))),
        by_name(v).to_multiset() == v.to_multiset(),
        by_name(v).len() == v.len(),
    decreases v.len(),
{
    broadcast use vstd::seq_lib::group_to_multiset_ensures;

    if v.len() > 0 {
        let d = v.drop_last();
        let x = v.last();
        lemma_by_name(d);
        let s = by_name(d);
        let n = lemma_place_of(s, x);
        lemma_insert(names_of(s), x.0@, n);
        assert(names_of(s.insert(n, x)) =~= names_of(s).insert(n, x.0@));
        assert(v =~= d.push(x));
        assert(s.insert(n, x).to_multiset() =~= s.to_multiset().insert(x));
    } else {
        assert(by_name(v) =~= v);
    }
}

/// The list in the order of its names.
pub fn sort_by_name<T>(list: Vec<(String, T)>) -> (r: Vec<(String, T)>)
    ensures
        r@ == by_name(list@),
{
    let ghost all = list@;
    let mut rest = list;
    let mut out: Vec<(String, T)> = Vec::new();
    while rest.len() > 0
        invariant
            out@.len() + rest@.len() == all.len(),
            rest@ == all.skip(out@.len() as int),
            out@ == by_name(all.take(out@.len() as int)),
        decreases rest@.len(),
    {
        let ghost done = out@.len() as int;
        let ghost before = out@;
        let x = rest.remove(0);
        proof {
            assert(x == all[done]);
            assert(rest@ =~= all.skip(done + 1));
            let next = all.take(done + 1);
            assert(next.drop_last() =~= all.take(done));
            assert(next.last() == x);
        }
        let mut n: usize = out.len();
        while n > 0 && comes_before(x.0.as_str(), out[n - 1].0.as_str())
            invariant
                n <= out@.len(),
                out@ == before,
                forall|k: int| n <= k < out@.len() ==> text_before(x.0@, (#[trigger] out@[k]).0@),
            decreases n,
        {
            n -= 1;
        }
        out.insert(n, x);
        proof {
            lemma_placed(before, x, n as int);
            lemma_by_name(all.take(done));
        }
    }
    proof {
        assert(all.take(all.len() as int) =~= all);
    }
    out
}

/// Of two texts that differ, the first character in which they differ decides which comes first; a
/// text comes behind its own beginnings.
pub proof fn law_first_difference_orders_texts(a: Seq<char>, b: Seq<char>, n: int)
    requires
        0 <= n <= a.len(),
        n < b.len(),
        a.take(n) == b.take(n),
        n < a.len() ==> a[n] != b[n],
    ensures
        text_before(a, b) == (n == a.len() || a[n] < b[n]),
        text_before(b, a) == (n < a.len() && b[n] < a[n]),
    decreases n,
{
    if n > 0 {
        assert(a[0] == a.take(n)[0]);
        assert(b[0] == b.take(n)[0]);
        assert(a.skip(1).take(n - 1) =~= a.take(n).skip(1));
        assert(b.skip(1).take(n - 1) =~= b.take(n).skip(1));
        law_first_difference_orders_texts(a.skip(1), b.skip(1), n - 1);
    }
}

} // verus!
