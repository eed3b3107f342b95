//! Ordering text the way `String`'s `Ord` does, and sorting by it.
//!
//! `String` compares byte-wise, and UTF-8 keeps the order of code points, so comparing the
//! characters' scalar values one by one is the same order.
use vstd::prelude::*;

verus! {

broadcast use vstd::seq_lib::group_to_multiset_ensures;

/// `a <= b` in the order `String::cmp` gives.
pub open spec fn lex_le(a: Seq<char>, b: Seq<char>) -> bool
    decreases a.len(),
{
    if a.len() == 0 {
        true
    } else if b.len() == 0 {
        false
    } else if a[0] == b[0] {
        lex_le(a.drop_first(), b.drop_first())
    } else {
        a[0] < b[0]
    }
}

/// Any two texts are ordered one way or the other.
pub proof fn lemma_lex_total(a: Seq<char>, b: Seq<char>)
    ensures
        lex_le(a, b) || lex_le(b, a),
    decreases a.len(),
{
    if a.len() > 0 && b.len() > 0 {
        if a[0] == b[0] {
            lemma_lex_total(a.drop_first(), b.drop_first());
        }
    }
}

/// The order is transitive.
pub proof fn lemma_lex_trans(a: Seq<char>, b: Seq<char>, c: Seq<char>)
    requires
        lex_le(a, b),
        lex_le(b, c),
    ensures
        lex_le(a, c),
    decreases a.len(),
{
    if a.len() > 0 && b.len() > 0 && c.len() > 0 && a[0] == b[0] && b[0] == c[0] {
        lemma_lex_trans(a.drop_first(), b.drop_first(), c.drop_first());
    }
}

/// Every text is ordered before itself.
pub proof fn lemma_lex_refl(a: Seq<char>)
    ensures
        lex_le(a, a),
    decreases a.len(),
{
    if a.len() > 0 {
        lemma_lex_refl(a.drop_first());
    }
}

/// Two texts ordered both ways are the same text.
pub proof fn lemma_lex_antisym(a: Seq<char>, b: Seq<char>)
    requires
        lex_le(a, b),
        lex_le(b, a),
    ensures
        a == b,
    decreases a.len(),
{
    if a.len() > 0 && b.len() > 0 {
        if a[0] == b[0] {
            lemma_lex_antisym(a.drop_first(), b.drop_first());
            assert(a =~= seq![a[0]] + a.drop_first());
            assert(b =~= seq![b[0]] + b.drop_first());
        }
    } else {
        assert(a =~= b);
    }
}

proof fn lemma_lex_step(a: Seq<char>, b: Seq<char>, i: int)
    requires
        0 <= i < a.len(),
        i < b.len(),
        a[i] == b[i],
    ensures
        lex_le(a.subrange(i, a.len() as int), b.subrange(i, b.len() as int)) == lex_le(
            a.subrange(i + 1, a.len() as int),
            b.subrange(i + 1, b.len() as int),
        ),
{
    assert(a.subrange(i, a.len() as int).drop_first() =~= a.subrange(i + 1, a.len() as int));
    assert(b.subrange(i, b.len() as int).drop_first() =~= b.subrange(i + 1, b.len() as int));
}

/// `a <= b`, comparing as `String` does.
pub fn str_le(a: &str, b: &str) -> (r: bool)
    ensures
        r == lex_le(a@, b@),
{
    let n = a.unicode_len();
    let m = b.unicode_len();
    let mut i: usize = 0;
    assert(a@.subrange(0, n as int) =~= a@);
    assert(b@.subrange(0, m as int) =~= b@);
    while i < n && i < m
        invariant
            n == a@.len(),
            m == b@.len(),
            i <= n,
            i <= m,
            lex_le(a@, b@) == lex_le(a@.subrange(i as int, n as int), b@.subrange(i as int, m as int)),
        decreases n - i,
    {
        let x = a.get_char(i);
        let y = b.get_char(i);
        if x != y {
            return x < y;
        }
        proof {
            lemma_lex_step(a@, b@, i as int);
        }
        i = i + 1;
    }
    i == n
}

/// Values that are put in order by a text key.
pub trait Keyed: View + Sized {
    /// The key a value's view is ordered by.
    spec fn key_of(v: Self::V) -> Seq<char>;

    /// The key, as text.
    fn key(&self) -> (r: &str)
        ensures
            r@ == Self::key_of(self@),
    ;
}

impl Keyed for String {
    open spec fn key_of(v: Seq<char>) -> Seq<char> {
        v
    }

    fn key(&self) -> (r: &str) {
        self.as_str()
    }
}

/// The views of a sequence of values.
pub open spec fn views<T: View>(s: Seq<T>) -> Seq<T::V> {
    s.map_values(|t: T| t@)
}

/// In order by key.
pub open spec fn sorted_by_key<T: Keyed>(s: Seq<T::V>) -> bool {
    forall|i: int, j: int| 0 <= i < j < s.len() ==> lex_le(T::key_of(s[i]), T::key_of(s[j]))
}

proof fn lemma_views_insert<T: View>(s: Seq<T>, p: int, x: T)
    requires
        0 <= p <= s.len(),
    ensures
        views(s.insert(p, x)) == views(s).insert(p, x@),
{
    assert(views(s.insert(p, x)) =~= views(s).insert(p, x@));
}

proof fn lemma_views_take_push<T: View>(s: Seq<T>, k: int)
    requires
        0 <= k < s.len(),
    ensures
        views(s.take(k + 1)) == views(s.take(k)).push(s[k]@),
{
    assert(views(s.take(k + 1)) =~= views(s.take(k)).push(s[k]@));
}

/// Where a stable insertion puts `x` in `s`: after the leading values whose keys may come
/// before it.
pub open spec fn insert_pos<T: Keyed>(s: Seq<T::V>, x: T::V) -> nat
    decreases s.len(),
{
    if s.len() == 0 {
        0
    } else if lex_le(T::key_of(s[0]), T::key_of(x)) {
        1 + insert_pos::<T>(s.drop_first(), x)
    } else {
        0
    }
}

/// The values in order by key, equal keys in the order they came: each value in turn is
/// inserted after every value before it whose key is not greater.
pub open spec fn key_sorted<T: Keyed>(s: Seq<T::V>) -> Seq<T::V>
    decreases s.len(),
{
    if s.len() == 0 {
        s
    } else {
        let r = key_sorted::<T>(s.drop_last());
        r.insert(insert_pos::<T>(r, s.last()) as int, s.last())
    }
}

proof fn lemma_insert_pos_step<T: Keyed>(s: Seq<T::V>, x: T::V, q: int)
    requires
        0 <= q < s.len(),
        lex_le(T::key_of(s[q]), T::key_of(x)),
    ensures
        insert_pos::<T>(s.skip(q), x) == 1 + insert_pos::<T>(s.skip(q + 1), x),
{
    assert(s.skip(q)[0] == s[q]);
    assert(s.skip(q).drop_first() =~= s.skip(q + 1));
}

proof fn lemma_insert_pos_stop<T: Keyed>(s: Seq<T::V>, x: T::V, q: int)
    requires
        0 <= q <= s.len(),
        q < s.len() ==> !lex_le(T::key_of(s[q]), T::key_of(x)),
    ensures
        insert_pos::<T>(s.skip(q), x) == 0,
{
    if q < s.len() {
        assert(s.skip(q)[0] == s[q]);
    } else {
        assert(s.skip(q).len() == 0);
    }
}

/// The values, in order by key: a stable insertion sort.
pub fn sort_by_key<T: Keyed>(v: Vec<T>) -> (r: Vec<T>)
    ensures
        sorted_by_key::<T>(views(r@)),
        views(r@).to_multiset() == views(v@).to_multiset(),
        r@.len() == v@.len(),
        views(r@) == key_sorted::<T>(views(v@)),
{
    let ghost input = v@;
    let mut rest = v;
    let mut out: Vec<T> = Vec::new();
    let n = rest.len();
    let mut k: usize = 0;
    assert(input.skip(0) =~= input);
    assert(views(input.take(0)) =~= Seq::<T::V>::empty());
    while rest.len() > 0
        invariant
            n == input.len(),
            k + rest@.len() == n,
            rest@ == input.skip(k as int),
            sorted_by_key::<T>(views(out@)),
            views(out@).to_multiset() == views(input.take(k as int)).to_multiset(),
            out@.len() == k,
            views(out@) == key_sorted::<T>(views(input.take(k as int))),
        decreases rest@.len(),
    {
        let x = rest.remove(0);
        assert(x == input[k as int]);
        assert(rest@ =~= input.skip(k + 1));
        let mut p: usize = 0;
        assert(views(out@).skip(0) =~= views(out@));
        while p < out.len() && str_le(out[p].key(), x.key())
            invariant
                p <= out@.len(),
                forall|q: int| 0 <= q < p ==> lex_le(T::key_of(out@[q]@), T::key_of(x@)),
                insert_pos::<T>(views(out@), x@) == p + insert_pos::<T>(views(out@).skip(p as int), x@),
            decreases out@.len() - p,
        {
            proof {
                assert(views(out@)[p as int] == out@[p as int]@);
                lemma_insert_pos_step::<T>(views(out@), x@, p as int);
            }
            p = p + 1;
        }
        let ghost before = out@;
        proof {
            if p < before.len() {
                lemma_lex_total(T::key_of(before[p as int]@), T::key_of(x@));
                assert(views(before)[p as int] == before[p as int]@);
            }
            lemma_insert_pos_stop::<T>(views(before), x@, p as int);
        }
        out.insert(p, x);
        proof {
            lemma_views_insert(before, p as int, x);
            lemma_views_take_push(input, k as int);
            let s1 = views(input.take(k + 1));
            assert(s1.drop_last() =~= views(input.take(k as int)));
            assert(s1.last() == x@);
            let vs = views(out@);
            assert forall|i: int, j: int| 0 <= i < j < vs.len() implies lex_le(
                T::key_of(vs[i]),
                T::key_of(vs[j]),
            ) by {
                let ob = views(before);
                if j < p {
                    assert(vs[i] == ob[i] && vs[j] == ob[j]);
                } else if j == p {
                    assert(vs[i] == ob[i]);
                } else if i == p {
                    assert(vs[j] == ob[j - 1]);
                    if j - 1 == p {
                        lemma_lex_refl(T::key_of(ob[p as int]));
                    }
                    lemma_lex_trans(T::key_of(x@), T::key_of(ob[p as int]), T::key_of(ob[j - 1]));
                } else if i < p {
                    assert(vs[i] == ob[i] && vs[j] == ob[j - 1]);
                } else {
                    assert(vs[i] == ob[i - 1] && vs[j] == ob[j - 1]);
                }
            }
        }
        k = k + 1;
    }
    assert(input.take(n as int) =~= input);
    out
}

/// Values with an order of their own: a total preorder on their views.
pub trait Ordered: View + Sized {
    /// `a` may come before `b`.
    spec fn before(a: Self::V, b: Self::V) -> bool;

    /// Any two values are ordered one way or the other.
    proof fn lemma_total(a: Self::V, b: Self::V)
        ensures
            Self::before(a, b) || Self::before(b, a),
    ;

    /// The order is transitive.
    proof fn lemma_trans(a: Self::V, b: Self::V, c: Self::V)
        requires
            Self::before(a, b),
            Self::before(b, c),
        ensures
            Self::before(a, c),
    ;

    /// Whether this value may come before `other`.
    fn le(&self, other: &Self) -> (r: bool)
        ensures
            r == Self::before(self@, other@),
    ;
}

/// In the order `T` defines.
pub open spec fn sorted_by<T: Ordered>(s: Seq<T::V>) -> bool {
    forall|i: int, j: int| 0 <= i < j < s.len() ==> T::before(s[i], s[j])
}

/// The values, in the order `T` defines: a stable insertion sort.
pub fn sort_by<T: Ordered>(v: Vec<T>) -> (r: Vec<T>)
    ensures
        sorted_by::<T>(views(r@)),
        views(r@).to_multiset() == views(v@).to_multiset(),
        r@.len() == v@.len(),
{
    let ghost input = v@;
    let mut rest = v;
    let mut out: Vec<T> = Vec::new();
    let n = rest.len();
    let mut k: usize = 0;
    assert(input.skip(0) =~= input);
    assert(views(input.take(0)) =~= Seq::<T::V>::empty());
    while rest.len() > 0
        invariant
            n == input.len(),
            k + rest@.len() == n,
            rest@ == input.skip(k as int),
            sorted_by::<T>(views(out@)),
            views(out@).to_multiset() == views(input.take(k as int)).to_multiset(),
            out@.len() == k,
        decreases rest@.len(),
    {
        let x = rest.remove(0);
        assert(x == input[k as int]);
        assert(rest@ =~= input.skip(k + 1));
        let mut p: usize = 0;
        while p < out.len() && out[p].le(&x)
            invariant
                p <= out@.len(),
                forall|q: int| 0 <= q < p ==> T::before(out@[q]@, x@),
            decreases out@.len() - p,
        {
            p = p + 1;
        }
        let ghost before = out@;
        proof {
            if p < before.len() {
                T::lemma_total(before[p as int]@, x@);
            }
        }
        out.insert(p, x);
        proof {
            lemma_views_insert(before, p as int, x);
            lemma_views_take_push(input, k as int);
            let vs = views(out@);
            assert forall|i: int, j: int| 0 <= i < j < vs.len() implies T::before(vs[i], vs[j]) by {
                let ob = views(before);
                if j < p {
                    assert(vs[i] == ob[i] && vs[j] == ob[j]);
                } else if j == p {
                    assert(vs[i] == ob[i]);
                } else if i == p {
                    assert(vs[j] == ob[j - 1]);
                    if j - 1 == p {
                        T::lemma_total(ob[p as int], ob[p as int]);
                    }
                    T::lemma_trans(x@, ob[p as int], ob[j - 1]);
                } else if i < p {
                    assert(vs[i] == ob[i] && vs[j] == ob[j - 1]);
                } else {
                    assert(vs[i] == ob[i - 1] && vs[j] == ob[j - 1]);
                }
            }
        }
        k = k + 1;
    }
    assert(input.take(n as int) =~= input);
    out
}

} // verus!
