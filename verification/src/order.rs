//! Stable sorting of values that know which of two comes first.
use vstd::prelude::*;
use vstd::multiset::Multiset;
use crate::text::{chars_of, same, texts};

verus! {

/// A type with an order: `before` says that `self` has to stand in front of `other`.
pub trait Ranked: Sized {
    spec fn before(&self, other: &Self) -> bool;

    fn comes_before(&self, other: &Self) -> (r: bool)
        ensures
            r == self.before(other),
    ;

    proof fn order_is_strict(a: &Self, b: &Self)
        ensures
            a.before(b) ==> !b.before(a),
    ;

    proof fn order_is_weak(a: &Self, b: &Self, c: &Self)
        ensures
            !a.before(b) && !b.before(c) ==> !a.before(c),
    ;
}

/// `s` with `x` put behind every item that it does not have to precede.
pub open spec fn placed<T: Ranked>(s: Seq<T>, x: T) -> Seq<T>
    decreases s.len(),
{
    if s.len() > 0 && x.before(&s.last()) {
        placed(s.drop_last(), x).push(s.last())
    } else {
        s.push(x)
    }
}

/// The items of `s` in order; those that are equal in rank keep their order.
pub open spec fn sorted<T: Ranked>(s: Seq<T>) -> Seq<T>
    decreases s.len(),
{
    if s.len() == 0 {
        s
    } else {
        placed(sorted(s.drop_last()), s.last())
    }
}

/// No item has to precede one that stands in front of it.
pub open spec fn in_order<T: Ranked>(s: Seq<T>) -> bool {
    forall|i: int, j: int| #![trigger s[i], s[j]] 0 <= i < j < s.len() ==> !s[j].before(&s[i])
}

proof fn lemma_placed<T: Ranked>(s: Seq<T>, x: T)
    requires
        in_order(s),
    ensures
        in_order(placed(s, x)),
        placed(s, x).to_multiset() == s.to_multiset().insert(x),
        forall|i: int|
            0 <= i < placed(s, x).len() ==> #[trigger] placed(s, x)[i] == x || s.contains(
                placed(s, x)[i],
            ),
    decreases s.len(),
{
    broadcast use vstd::seq_lib::group_to_multiset_ensures;

    let r = placed(s, x);
    if s.len() > 0 && x.before(&s.last()) {
        let t = s.drop_last();
        assert(t.push(s.last()) =~= s);
        lemma_placed(t, x);
        let p = placed(t, x);
        assert forall|i: int, j: int| #![trigger r[i], r[j]] 0 <= i < j < r.len() implies !r[j].before(&r[i]) by {
            if j == r.len() - 1 {
                assert(r[i] == p[i]);
                if p[i] == x {
                    T::order_is_strict(&x, &s.last());
                } else {
                    let k = choose|k: int| 0 <= k < t.len() && t[k] == p[i];
                    assert(s[k] == t[k]);
                }
            } else {
                assert(r[i] == p[i] && r[j] == p[j]);
            }
        }
        assert(r.to_multiset() =~= s.to_multiset().insert(x));
        assert forall|i: int| 0 <= i < r.len() implies #[trigger] r[i] == x || s.contains(r[i]) by {
            if i < p.len() {
                assert(r[i] == p[i]);
                if p[i] != x {
                    let k = choose|k: int| 0 <= k < t.len() && t[k] == p[i];
                    assert(s[k] == p[i]);
                }
            } else {
                assert(s.contains(s.last()));
            }
        }
    } else {
        assert forall|i: int, j: int| #![trigger r[i], r[j]] 0 <= i < j < r.len() implies !r[j].before(&r[i]) by {
            if j == r.len() - 1 && i < s.len() - 1 {
                T::order_is_weak(&x, &s.last(), &s[i]);
            }
        }
        assert forall|i: int| 0 <= i < r.len() implies #[trigger] r[i] == x || s.contains(r[i]) by {
            if i < s.len() {
                assert(r[i] == s[i]);
            }
        }
    }
}

/// Sorting puts the items in order and neither loses nor adds one.
pub proof fn sorting_orders<T: Ranked>(s: Seq<T>)
    ensures
        in_order(sorted(s)),
        sorted(s).to_multiset() == s.to_multiset(),
        sorted(s).len() == s.len(),
    decreases s.len(),
{
    broadcast use vstd::seq_lib::group_to_multiset_ensures;

    if s.len() > 0 {
        sorting_orders(s.drop_last());
        lemma_placed(sorted(s.drop_last()), s.last());
        assert(s.drop_last().push(s.last()) =~= s);
    }
    sorted(s).to_multiset_ensures();
    s.to_multiset_ensures();
}

/// What is in order already stays as it is.
pub proof fn sorting_keeps_sorted<T: Ranked>(s: Seq<T>)
    requires
        in_order(s),
    ensures
        sorted(s) == s,
    decreases s.len(),
{
    if s.len() > 0 {
        let t = s.drop_last();
        assert(in_order(t)) by {
            assert forall|i: int, j: int| #![trigger t[i], t[j]] 0 <= i < j < t.len() implies !t[j].before(&t[i]) by {
                assert(t[i] == s[i] && t[j] == s[j]);
            }
        }
        sorting_keeps_sorted(t);
        assert(t.push(s.last()) =~= s);
        if t.len() > 0 {
            assert(t.last() == s[s.len() - 2]);
            assert(!s[s.len() - 1].before(&s[s.len() - 2]));
        }
    }
}

/// `s` with `x` put behind every item that `less` does not want behind it.
pub open spec fn placed_by<A>(s: Seq<A>, x: A, less: spec_fn(A, A) -> bool) -> Seq<A>
    decreases s.len(),
{
    if s.len() > 0 && less(x, s.last()) {
        placed_by(s.drop_last(), x, less).push(s.last())
    } else {
        s.push(x)
    }
}

/// The items of `s` in the order `less`; those that are equal in it keep their order.
pub open spec fn sorted_by<A>(s: Seq<A>, less: spec_fn(A, A) -> bool) -> Seq<A>
    decreases s.len(),
{
    if s.len() == 0 {
        s
    } else {
        placed_by(sorted_by(s.drop_last(), less), s.last(), less)
    }
}

proof fn lemma_placed_map<T: Ranked, B>(s: Seq<T>, x: T, f: spec_fn(T) -> B, less: spec_fn(B, B) -> bool)
    requires
        forall|a: T, b: T| #[trigger] a.before(&b) == less(f(a), f(b)),
    ensures
        placed(s, x).map_values(f) == placed_by(s.map_values(f), f(x), less),
    decreases s.len(),
{
    let m = s.map_values(f);
    if s.len() > 0 && x.before(&s.last()) {
        lemma_placed_map(s.drop_last(), x, f, less);
        assert(m.drop_last() =~= s.drop_last().map_values(f));
        assert(m.last() == f(s.last()));
        assert(placed(s, x).map_values(f) =~= placed_by(m, f(x), less));
    } else {
        if s.len() > 0 {
            assert(m.last() == f(s.last()));
        }
        assert(placed(s, x).map_values(f) =~= placed_by(m, f(x), less));
    }
}

/// Sorting values sorts what they stand for.
pub proof fn lemma_sorted_map<T: Ranked, B>(s: Seq<T>, f: spec_fn(T) -> B, less: spec_fn(B, B) -> bool)
    requires
        forall|a: T, b: T| #[trigger] a.before(&b) == less(f(a), f(b)),
    ensures
        sorted(s).map_values(f) == sorted_by(s.map_values(f), less),
    decreases s.len(),
{
    let m = s.map_values(f);
    if s.len() > 0 {
        lemma_sorted_map(s.drop_last(), f, less);
        lemma_placed_map(sorted(s.drop_last()), s.last(), f, less);
        assert(m.drop_last() =~= s.drop_last().map_values(f));
        assert(m.last() == f(s.last()));
    } else {
        assert(sorted(s).map_values(f) =~= sorted_by(m, less));
    }
}

/// Sorts, keeping the order of items that are equal in rank.
pub fn sort<T: Ranked>(v: Vec<T>) -> (r: Vec<T>)
    ensures
        r@ == sorted(v@),
{
    let mut todo = v;
    let mut rest: Vec<T> = Vec::new();
    let ghost all = v@;
    // `rest` holds what is left to take, in reverse
    while todo.len() > 0
        invariant
            all == todo@ + rest@.reverse(),
        decreases todo.len(),
    {
        let ghost before = todo@;
        let ghost tail = rest@;
        match todo.pop() {
            Some(x) => {
                rest.push(x);
                assert(before =~= todo@.push(x));
                assert(rest@.reverse() =~= seq![x] + tail.reverse());
                assert(todo@ + rest@.reverse() =~= before + tail.reverse());
            },
            None => {},
        }
    }
    let mut out: Vec<T> = Vec::new();
    assert(rest@.reverse() =~= all);
    assert(all.take(0) =~= Seq::<T>::empty());
    assert(out@ =~= sorted(all.take(0)));
    while rest.len() > 0
        invariant
            rest.len() <= all.len(),
            rest@.reverse() == all.skip(all.len() - rest.len()),
            out@ == sorted(all.take(all.len() - rest.len())),
        decreases rest.len(),
    {
        let ghost n = all.len() - rest.len();
        let ghost before = rest@;
        match rest.pop() {
            Some(x) => {
                proof {
                    assert(before.reverse()[0] == x);
                    assert(all[n] == x);
                    assert(rest@.reverse() =~= before.reverse().drop_first());
                    assert(rest@.reverse() =~= all.skip(n + 1));
                    assert(all.take(n + 1).drop_last() =~= all.take(n));
                    assert(all.take(n + 1).last() == x);
                }
                let ghost base = out@;
                let mut k: usize = out.len();
                assert(base.take(k as int) =~= base);
                assert(base.skip(k as int) =~= Seq::<T>::empty());
                assert(placed(base, x) =~= placed(base.take(k as int), x) + base.skip(k as int));
                while k > 0 && x.comes_before(&out[k - 1])
                    invariant
                        k <= out.len(),
                        out@ == base,
                        placed(base, x) == placed(base.take(k as int), x) + base.skip(k as int),
                    decreases k,
                {
                    proof {
                        let t = base.take(k as int);
                        assert(t.last() == base[k - 1]);
                        assert(t.drop_last() =~= base.take(k - 1));
                        assert(placed(base.take(k - 1), x).push(base[k - 1]) + base.skip(k as int)
                            =~= placed(base.take(k - 1), x) + base.skip(k - 1));
                    }
                    k = k - 1;
                }
                proof {
                    let t = base.take(k as int);
                    if k > 0 {
                        assert(t.last() == base[k - 1]);
                    }
                    assert(placed(t, x) == t.push(x));
                    assert(t.push(x) + base.skip(k as int) =~= base.insert(k as int, x));
                }
                out.insert(k, x);
            },
            None => {},
        }
    }
    assert(all.take(all.len() as int) =~= all);
    out
}

// ── the order of texts ──────────────────────────────────────────────────────

/// Whether `a` stands in front of `b` in the order of their characters, the first
/// difference deciding.
pub open spec fn text_less(a: Seq<char>, b: Seq<char>) -> bool
    decreases a.len(),
{
    if b.len() == 0 {
        false
    } else if a.len() == 0 {
        true
    } else if a[0] != b[0] {
        (a[0] as u32) < (b[0] as u32)
    } else {
        text_less(a.drop_first(), b.drop_first())
    }
}

/// A text is never in front of itself.
pub proof fn text_less_irreflexive(a: Seq<char>)
    ensures
        !text_less(a, a),
    decreases a.len(),
{
    if a.len() > 0 {
        text_less_irreflexive(a.drop_first());
    }
}

proof fn lemma_char_order(a: char, b: char)
    ensures
        a as u32 == b as u32 ==> a == b,
{
    if a as u32 == b as u32 {
        assert((a as u32) as char == a);
        assert((b as u32) as char == b);
    }
}

/// Of two different texts one is in front of the other.
pub proof fn text_less_total(a: Seq<char>, b: Seq<char>)
    ensures
        a == b || text_less(a, b) || text_less(b, a),
    decreases a.len(),
{
    if a.len() > 0 && b.len() > 0 {
        lemma_char_order(a[0], b[0]);
        if a[0] == b[0] {
            text_less_total(a.drop_first(), b.drop_first());
            if a.drop_first() == b.drop_first() {
                assert(a =~= seq![a[0]] + a.drop_first());
                assert(b =~= seq![b[0]] + b.drop_first());
            }
        }
    } else if a.len() == 0 && b.len() == 0 {
        assert(a =~= b);
    }
}

/// Being in front carries over.
pub proof fn text_less_transitive(a: Seq<char>, b: Seq<char>, c: Seq<char>)
    requires
        text_less(a, b),
        text_less(b, c),
    ensures
        text_less(a, c),
    decreases a.len(),
{
    if a.len() > 0 && a[0] == b[0] && b[0] == c[0] {
        text_less_transitive(a.drop_first(), b.drop_first(), c.drop_first());
    }
}

/// Two texts are never both in front of one another.
pub proof fn text_less_strict(a: Seq<char>, b: Seq<char>)
    ensures
        text_less(a, b) ==> !text_less(b, a),
{
    if text_less(a, b) && text_less(b, a) {
        text_less_transitive(a, b, a);
        text_less_irreflexive(a);
    }
}

/// Whether `a` stands in front of `b`.
pub fn less_text(a: &str, b: &str) -> (r: bool)
    ensures
        r == text_less(a@, b@),
{
    let x = chars_of(a);
    let y = chars_of(b);
    let mut i: usize = 0;
    assert(a@.skip(0) =~= a@);
    assert(b@.skip(0) =~= b@);
    while i < x.len() && i < y.len()
        invariant
            i <= x.len(),
            i <= y.len(),
            x@ == a@,
            y@ == b@,
            text_less(a@, b@) == text_less(a@.skip(i as int), b@.skip(i as int)),
        decreases x.len() - i,
    {
        if x[i] != y[i] {
            return (x[i] as u32) < (y[i] as u32);
        }
        assert(a@.skip(i as int).drop_first() =~= a@.skip(i + 1));
        assert(b@.skip(i as int).drop_first() =~= b@.skip(i + 1));
        i = i + 1;
    }
    i < y.len()
}

/// Whether `x` is one of the texts.
pub fn has_text(v: &Vec<String>, x: &str) -> (r: bool)
    ensures
        r == texts(v@).contains(x@),
{
    let mut i: usize = 0;
    while i < v.len()
        invariant
            i <= v.len(),
            forall|j: int| 0 <= j < i ==> texts(v@)[j] != x@,
        decreases v.len() - i,
    {
        if same(v[i].as_str(), x) {
            assert(texts(v@)[i as int] == x@);
            return true;
        }
        i = i + 1;
    }
    false
}

/// `s` with `x` at its place in the order, unless it is there already.
pub open spec fn with_name(s: Seq<Seq<char>>, x: Seq<char>) -> Seq<Seq<char>>
    decreases s.len(),
{
    if s.len() == 0 {
        seq![x]
    } else if s.last() == x {
        s
    } else if text_less(x, s.last()) {
        with_name(s.drop_last(), x).push(s.last())
    } else {
        s.push(x)
    }
}

/// The texts stand in order and none stands twice.
pub open spec fn ascending(s: Seq<Seq<char>>) -> bool {
    forall|i: int, j: int| #![trigger s[i], s[j]] 0 <= i < j < s.len() ==> text_less(s[i], s[j])
}

/// Adding a name keeps the names ascending, and adds that name alone.
pub proof fn lemma_with_name(s: Seq<Seq<char>>, x: Seq<char>)
    requires
        ascending(s),
    ensures
        ascending(with_name(s, x)),
        forall|y: Seq<char>| #[trigger] with_name(s, x).contains(y) <==> (y == x || s.contains(y)),
    decreases s.len(),
{
    let r = with_name(s, x);
    if s.len() == 0 {
        assert(r[0] == x);
    } else if s.last() == x {
        assert(s.contains(x));
    } else if text_less(x, s.last()) {
        let t = s.drop_last();
        assert(ascending(t)) by {
            assert forall|i: int, j: int| #![trigger t[i], t[j]] 0 <= i < j < t.len() implies text_less(t[i], t[j]) by {
                assert(t[i] == s[i] && t[j] == s[j]);
            }
        }
        lemma_with_name(t, x);
        let p = with_name(t, x);
        assert forall|i: int, j: int| #![trigger r[i], r[j]] 0 <= i < j < r.len() implies text_less(r[i], r[j]) by {
            assert(r[i] == p[i]);
            if j < p.len() {
                assert(r[j] == p[j]);
            } else {
                assert(p.contains(p[i]));
                if p[i] != x {
                    let k = choose|k: int| 0 <= k < t.len() && t[k] == p[i];
                    assert(s[k] == p[i]);
                    assert(s[s.len() - 1] == s.last());
                }
            }
        }
        assert forall|y: Seq<char>| #[trigger] r.contains(y) <==> (y == x || s.contains(y)) by {
            if r.contains(y) {
                let k = choose|k: int| 0 <= k < r.len() && r[k] == y;
                if k < p.len() {
                    assert(p[k] == y);
                    assert(p.contains(y));
                    if t.contains(y) {
                        let m = choose|m: int| 0 <= m < t.len() && t[m] == y;
                        assert(s[m] == y);
                    }
                } else {
                    assert(s[s.len() - 1] == y);
                }
            }
            if y == x || s.contains(y) {
                if y == s.last() {
                    assert(r[r.len() - 1] == y);
                } else {
                    if s.contains(y) {
                        let m = choose|m: int| 0 <= m < s.len() && s[m] == y;
                        assert(t[m] == y);
                    }
                    assert(p.contains(y));
                    let k = choose|k: int| 0 <= k < p.len() && p[k] == y;
                    assert(r[k] == y);
                }
            }
        }
    } else {
        text_less_total(s.last(), x);
        assert forall|i: int, j: int| #![trigger r[i], r[j]] 0 <= i < j < r.len() implies text_less(r[i], r[j]) by {
            if j == s.len() && i < s.len() - 1 {
                assert(text_less(s[i], s[s.len() - 1]));
                text_less_transitive(s[i], s.last(), x);
            } else if j < s.len() {
                assert(r[i] == s[i] && r[j] == s[j]);
            }
        }
        assert forall|y: Seq<char>| #[trigger] r.contains(y) <==> (y == x || s.contains(y)) by {
            assert(r[s.len() as int] == x);
            if s.contains(y) {
                let m = choose|m: int| 0 <= m < s.len() && s[m] == y;
                assert(r[m] == y);
            }
        }
    }
}

/// Puts a name at its place in the order, unless it is there already.
pub fn add_name(v: &mut Vec<String>, x: &str)
    ensures
        texts(final(v)@) == with_name(texts(old(v)@), x@),
{
    let ghost base = texts(v@);
    let mut k: usize = v.len();
    assert(base.take(k as int) =~= base);
    assert(with_name(base, x@) =~= with_name(base.take(k as int), x@) + base.skip(k as int));
    while k > 0 && less_text(x, v[k - 1].as_str())
        invariant
            k <= v.len(),
            texts(v@) == base,
            with_name(base, x@) == with_name(base.take(k as int), x@) + base.skip(k as int),
        decreases k,
    {
        proof {
            let t = base.take(k as int);
            assert(t.last() == base[k - 1]);
            text_less_irreflexive(x@);
            assert(t.drop_last() =~= base.take(k - 1));
            assert(with_name(base.take(k - 1), x@).push(base[k - 1]) + base.skip(k as int)
                =~= with_name(base.take(k - 1), x@) + base.skip(k - 1));
        }
        k = k - 1;
    }
    let ghost t = base.take(k as int);
    assert(k > 0 ==> t.last() == base[k - 1]);
    if k > 0 && same(v[k - 1].as_str(), x) {
        assert(t + base.skip(k as int) =~= base);
        return;
    }
    proof {
        if k > 0 {
            assert(with_name(t, x@) == t.push(x@));
        } else {
            assert(with_name(t, x@) == seq![x@]);
            assert(t.push(x@) =~= seq![x@]);
        }
        assert(t.push(x@) + base.skip(k as int) =~= base.insert(k as int, x@));
    }
    let s = x.to_owned();
    v.insert(k, s);
    assert(texts(v@) =~= base.insert(k as int, x@));
}

// ── sorting by a relation ───────────────────────────────────────────────────

/// Whether a relation can sort: nothing stands both before and behind another, and standing in no
/// order carries over.
pub open spec fn can_sort<A>(less: spec_fn(A, A) -> bool) -> bool {
    &&& forall|a: A, b: A| #[trigger] less(a, b) ==> !less(b, a)
    &&& forall|a: A, b: A, c: A| #![trigger less(a, b), less(b, c)] !less(a, b) && !less(b, c) ==> !less(a, c)
}

proof fn lemma_placed_by<A>(s: Seq<A>, x: A, less: spec_fn(A, A) -> bool)
    ensures
        placed_by(s, x, less).to_multiset() == s.to_multiset().insert(x),
        can_sort(less) && (forall|i: int, j: int| #![trigger s[i], s[j]] 0 <= i < j < s.len() ==> !less(s[j], s[i])) ==> {
            let r = placed_by(s, x, less);
            forall|i: int, j: int| #![trigger r[i], r[j]] 0 <= i < j < r.len() ==> !less(r[j], r[i])
        },
        placed_by(s, x, less).len() == s.len() + 1,
    decreases s.len(),
{
    let r = placed_by(s, x, less);
    s.to_multiset_ensures();
    if s.len() > 0 && less(x, s.last()) {
        let t = s.drop_last();
        let q = placed_by(t, x, less);
        lemma_placed_by(t, x, less);
        t.to_multiset_ensures();
        q.to_multiset_ensures();
        assert(t.push(s.last()) =~= s);
        assert(r.to_multiset() =~= s.to_multiset().insert(x));
        if can_sort(less) && (forall|i: int, j: int| #![trigger s[i], s[j]] 0 <= i < j < s.len() ==> !less(s[j], s[i])) {
            assert forall|i: int, j: int| #![trigger t[i], t[j]] 0 <= i < j < t.len() implies !less(t[j], t[i]) by {
                assert(t[i] == s[i] && t[j] == s[j]);
            }
            assert forall|i: int, j: int| #![trigger r[i], r[j]] 0 <= i < j < r.len() implies !less(r[j], r[i]) by {
                assert(r[i] == q[i]);
                if j < q.len() {
                    assert(r[j] == q[j]);
                } else {
                    assert(r[j] == s.last());
                    assert(q.contains(q[i]));
                    assert(q.to_multiset().contains(q[i]));
                    if q[i] != x {
                        assert(t.to_multiset().contains(q[i]));
                        assert(t.contains(q[i]));
                        let k = choose|k: int| 0 <= k < t.len() && t[k] == q[i];
                        assert(s[k] == q[i]);
                        assert(s[s.len() - 1] == s.last());
                    }
                }
            }
        }
    } else {
        if can_sort(less) && (forall|i: int, j: int| #![trigger s[i], s[j]] 0 <= i < j < s.len() ==> !less(s[j], s[i])) {
            assert forall|i: int, j: int| #![trigger r[i], r[j]] 0 <= i < j < r.len() implies !less(r[j], r[i]) by {
                assert(r[i] == s[i]);
                if j < s.len() {
                    assert(r[j] == s[j]);
                } else {
                    assert(r[j] == x);
                    assert(!less(x, s.last()));
                    if i < s.len() - 1 {
                        assert(!less(s[s.len() - 1], s[i]));
                    }
                }
            }
        }
    }
}

/// Sorting moves the items and neither adds nor drops any; what it gives stands in order.
pub proof fn sorting_by_orders<A>(s: Seq<A>, less: spec_fn(A, A) -> bool)
    ensures
        sorted_by(s, less).to_multiset() == s.to_multiset(),
        sorted_by(s, less).len() == s.len(),
        can_sort(less) ==> forall|i: int, j: int|
            #![trigger sorted_by(s, less)[i], sorted_by(s, less)[j]]
            0 <= i < j < s.len() ==> !less(sorted_by(s, less)[j], sorted_by(s, less)[i]),
    decreases s.len(),
{
    if s.len() > 0 {
        let t = s.drop_last();
        sorting_by_orders(t, less);
        lemma_placed_by(sorted_by(t, less), s.last(), less);
        t.to_multiset_ensures();
        assert(t.push(s.last()) =~= s);
    }
}

/// Sorting keeps the members.
pub proof fn sorting_by_keeps_members<A>(s: Seq<A>, less: spec_fn(A, A) -> bool, x: A)
    ensures
        sorted_by(s, less).contains(x) <==> s.contains(x),
{
    sorting_by_orders(s, less);
    s.to_multiset_ensures();
    sorted_by(s, less).to_multiset_ensures();
    assert(s.to_multiset().contains(x) <==> s.contains(x));
    assert(sorted_by(s, less).to_multiset().contains(x) <==> sorted_by(s, less).contains(x));
}

/// The first difference decides: a text that goes on with a smaller character stands in front, and
/// one that ends stands in front of one that goes on.
pub proof fn the_first_difference_decides(p: Seq<char>, c: char, a: Seq<char>, d: char, b: Seq<char>)
    ensures
        (c as u32) < (d as u32) ==> text_less(p + (seq![c] + a), p + (seq![d] + b)) && !text_less(p + (seq![d] + b), p + (seq![c] + a)),
        text_less(p, p + (seq![c] + a)) && !text_less(p + (seq![c] + a), p),
    decreases p.len(),
{
    let x = p + (seq![c] + a);
    let y = p + (seq![d] + b);
    if p.len() == 0 {
        assert(x[0] == c && y[0] == d);
    } else {
        let q = p.drop_first();
        the_first_difference_decides(q, c, a, d, b);
        assert(x.drop_first() =~= q + (seq![c] + a));
        assert(y.drop_first() =~= q + (seq![d] + b));
        assert(x[0] == p[0] && y[0] == p[0]);
    }
}

} // verus!
