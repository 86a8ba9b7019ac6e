//! Ordered collections: a stable sort over any ranked type, and a map from
//! names to values that keeps its names in dictionary order.
use crate::text::{before, law_lex_total, law_lex_transitive, lex_le, lex_lt, views};
use vstd::prelude::*;
use vstd::string::*;

verus! {

/// A type with a total preorder.
pub trait Ranked: Sized {
    /// `a` may stand before `b` in a sorted sequence.
    spec fn rank_le(a: Self, b: Self) -> bool;

    proof fn rank_total(a: Self, b: Self)
        ensures
            Self::rank_le(a, b) || Self::rank_le(b, a),
    ;

    proof fn rank_transitive(a: Self, b: Self, c: Self)
        requires
            Self::rank_le(a, b),
            Self::rank_le(b, c),
        ensures
            Self::rank_le(a, c),
    ;

    fn not_after(&self, other: &Self) -> (r: bool)
        ensures
            r == Self::rank_le(*self, *other),
    ;
}

/// Every element stands before every later one.
pub open spec fn ranked<T: Ranked>(s: Seq<T>) -> bool {
    forall|i: int, j: int| 0 <= i < j < s.len() ==> T::rank_le(#[trigger] s[i], #[trigger] s[j])
}

/// The elements of `s` that rank the same as `x`, in order.
pub open spec fn rank_class<T: Ranked>(s: Seq<T>, x: T) -> Seq<T> {
    s.filter(|y: T| T::rank_le(x, y) && T::rank_le(y, x))
}

/// `r` is the stable sort of `s`: the same elements, in rank order, with
/// elements of equal rank in the order they had.
pub open spec fn stable_sort_of<T: Ranked>(s: Seq<T>, r: Seq<T>) -> bool {
    &&& ranked(r)
    &&& r.to_multiset() == s.to_multiset()
    &&& forall|x: T| #[trigger] rank_class(r, x) == rank_class(s, x)
}

proof fn lemma_class_push<T: Ranked>(s: Seq<T>, y: T, x: T)
    ensures
        rank_class(s.push(y), x) == (if T::rank_le(x, y) && T::rank_le(y, x) {
            rank_class(s, x).push(y)
        } else {
            rank_class(s, x)
        }),
{
    reveal(Seq::filter);
    assert(s.push(y).drop_last() =~= s);
}

proof fn lemma_class_concat<T: Ranked>(a: Seq<T>, b: Seq<T>, x: T)
    ensures
        rank_class(a + b, x) == rank_class(a, x) + rank_class(b, x),
{
    Seq::filter_distributes_over_add(a, b, |y: T| T::rank_le(x, y) && T::rank_le(y, x));
}

proof fn lemma_class_empty<T: Ranked>(x: T)
    ensures
        rank_class(Seq::<T>::empty(), x) == Seq::<T>::empty(),
{
    reveal(Seq::filter);
}

proof fn lemma_class_absent<T: Ranked>(s: Seq<T>, x: T)
    requires
        forall|i: int|
            0 <= i < s.len() ==> !(T::rank_le(x, #[trigger] s[i]) && T::rank_le(s[i], x)),
    ensures
        rank_class(s, x) == Seq::<T>::empty(),
    decreases s.len(),
{
    if s.len() == 0 {
        assert(s =~= Seq::<T>::empty());
        lemma_class_empty(x);
    } else {
        lemma_class_absent(s.drop_last(), x);
        assert(s =~= s.drop_last().push(s.last()));
        lemma_class_push(s.drop_last(), s.last(), x);
    }
}

/// Reverse a vector in place of a second one.
fn turn_round<T>(v: Vec<T>) -> (r: Vec<T>)
    ensures
        r@ == v@.reverse(),
{
    let mut v: Vec<T> = v;
    let ghost all = v@;
    let mut r: Vec<T> = Vec::new();
    while v.len() > 0
        invariant
            r@.len() + v@.len() == all.len(),
            v@ =~= all.take(v@.len() as int),
            r@ =~= all.skip(v@.len() as int).reverse(),
        decreases v@.len(),
    {
        let x: T = v.pop().unwrap();
        r.push(x);
    }
    assert(all.skip(0) =~= all);
    r
}

/// Halfway through a merge of `whole`: what is left of the two halves, and
/// behind it the end of the result.
spec fn halfway<T: Ranked>(a: Seq<T>, b: Seq<T>, end: Seq<T>, whole: Seq<T>) -> bool {
    &&& ranked(a)
    &&& ranked(b)
    &&& ranked(end)
    &&& all_before(a, end)
    &&& all_before(b, end)
    &&& (a + b + end).to_multiset() == whole.to_multiset()
    &&& forall|x: T| #[trigger] rank_class(a + b + end, x) == rank_class(whole, x)
}

/// Nothing of `a` comes after anything of `b`.
spec fn all_before<T: Ranked>(a: Seq<T>, b: Seq<T>) -> bool {
    forall|i: int, j: int|
        0 <= i < a.len() && 0 <= j < b.len() ==> T::rank_le(#[trigger] a[i], #[trigger] b[j])
}

proof fn lemma_end_grows<T: Ranked>(y: T, end: Seq<T>)
    requires
        ranked(end),
        all_before(seq![y], end),
    ensures
        ranked(seq![y] + end),
{
    let n = seq![y] + end;
    assert forall|i: int, j: int| 0 <= i < j < n.len() implies T::rank_le(
        #[trigger] n[i],
        #[trigger] n[j],
    ) by {
        assert(n[j] == end[j - 1]);
        if i > 0 {
            assert(n[i] == end[i - 1]);
        } else {
            assert(seq![y][0] == y);
        }
    }
}

/// The last of the right half goes to the end: nothing left comes after it.
proof fn lemma_take_right<T: Ranked>(a: Seq<T>, b: Seq<T>, end: Seq<T>, whole: Seq<T>)
    requires
        halfway(a, b, end, whole),
        b.len() > 0,
        a.len() > 0 ==> T::rank_le(a.last(), b.last()),
    ensures
        halfway(a, b.drop_last(), seq![b.last()] + end, whole),
{
    let y = b.last();
    let n = seq![y] + end;
    assert(b[b.len() - 1] == y);
    assert(all_before(seq![y], end));
    lemma_end_grows(y, end);
    assert forall|i: int, j: int| 0 <= i < a.len() && 0 <= j < n.len() implies T::rank_le(
        #[trigger] a[i],
        #[trigger] n[j],
    ) by {
        if j > 0 {
            assert(n[j] == end[j - 1]);
        } else if i < a.len() - 1 {
            assert(T::rank_le(a[i], a[a.len() - 1]));
            T::rank_transitive(a[i], a[a.len() - 1], y);
        }
    }
    assert forall|i: int, j: int|
        0 <= i < b.len() - 1 && 0 <= j < n.len() implies T::rank_le(
        #[trigger] b.drop_last()[i],
        #[trigger] n[j],
    ) by {
        assert(b.drop_last()[i] == b[i]);
        if j > 0 {
            assert(n[j] == end[j - 1]);
        } else {
            assert(T::rank_le(b[i], b[b.len() - 1]));
        }
    }
    assert(a + b.drop_last() + n =~= a + b + end);
}

/// Moving `y` from behind `l` to behind `b` keeps every class of equals, where
/// nothing of `b` equals it.
proof fn lemma_move_class<T: Ranked>(l: Seq<T>, y: T, b: Seq<T>, end: Seq<T>, x: T)
    requires
        forall|i: int| 0 <= i < b.len() ==> !T::rank_le(y, #[trigger] b[i]),
    ensures
        rank_class(l + b + (seq![y] + end), x) == rank_class(l.push(y) + b + end, x),
{
    lemma_class_concat(l.push(y) + b, end, x);
    lemma_class_concat(l.push(y), b, x);
    lemma_class_push(l, y, x);
    assert(l + b + (seq![y] + end) =~= (l + b).push(y) + end);
    lemma_class_concat((l + b).push(y), end, x);
    lemma_class_push(l + b, y, x);
    lemma_class_concat(l, b, x);
    if T::rank_le(x, y) && T::rank_le(y, x) {
        assert forall|i: int| 0 <= i < b.len() implies !(T::rank_le(x, #[trigger] b[i])
            && T::rank_le(b[i], x)) by {
            if T::rank_le(x, b[i]) && T::rank_le(b[i], x) {
                T::rank_transitive(y, x, b[i]);
            }
        }
        lemma_class_absent(b, x);
        assert(rank_class(l, x).push(y) + Seq::<T>::empty() =~= (rank_class(l, x)
            + Seq::<T>::empty()).push(y));
    }
}

proof fn lemma_move_multiset<T>(l: Seq<T>, y: T, b: Seq<T>, end: Seq<T>)
    ensures
        (l + b + (seq![y] + end)).to_multiset() == (l.push(y) + b + end).to_multiset(),
{
    let after = l + b + (seq![y] + end);
    let before = l.push(y) + b + end;
    vstd::seq_lib::lemma_multiset_commutative(l.push(y) + b, end);
    vstd::seq_lib::lemma_multiset_commutative(l.push(y), b);
    vstd::seq_lib::lemma_multiset_commutative(l, seq![y]);
    vstd::seq_lib::lemma_multiset_commutative(l + b, seq![y] + end);
    vstd::seq_lib::lemma_multiset_commutative(l, b);
    vstd::seq_lib::lemma_multiset_commutative(seq![y], end);
    assert(l + seq![y] =~= l.push(y));
    assert(after.to_multiset() =~= before.to_multiset());
}

/// The last of the left half goes to the end: all of the right half comes before
/// it.
proof fn lemma_take_left<T: Ranked>(a: Seq<T>, b: Seq<T>, end: Seq<T>, whole: Seq<T>)
    requires
        halfway(a, b, end, whole),
        a.len() > 0,
        b.len() > 0 ==> !T::rank_le(a.last(), b.last()),
    ensures
        halfway(a.drop_last(), b, seq![a.last()] + end, whole),
{
    let y = a.last();
    let l = a.drop_last();
    let n = seq![y] + end;
    assert(a[a.len() - 1] == y);
    assert(a =~= l.push(y));
    assert(all_before(seq![y], end));
    lemma_end_grows(y, end);
    assert forall|i: int| 0 <= i < b.len() implies T::rank_le(#[trigger] b[i], y)
        && !T::rank_le(y, b[i]) by {
        let z = b[b.len() - 1];
        T::rank_total(y, z);
        if i < b.len() - 1 {
            assert(T::rank_le(b[i], z));
            T::rank_transitive(b[i], z, y);
            if T::rank_le(y, b[i]) {
                T::rank_transitive(y, b[i], z);
            }
        }
    }
    assert forall|i: int, j: int| 0 <= i < b.len() && 0 <= j < n.len() implies T::rank_le(
        #[trigger] b[i],
        #[trigger] n[j],
    ) by {
        if j > 0 {
            assert(n[j] == end[j - 1]);
        }
    }
    assert forall|i: int, j: int| 0 <= i < l.len() && 0 <= j < n.len() implies T::rank_le(
        #[trigger] l[i],
        #[trigger] n[j],
    ) by {
        assert(l[i] == a[i]);
        if j > 0 {
            assert(n[j] == end[j - 1]);
        } else {
            assert(T::rank_le(a[i], a[a.len() - 1]));
        }
    }
    lemma_move_multiset(l, y, b, end);
    assert forall|x: T| #[trigger] rank_class(l + b + n, x) == rank_class(whole, x) by {
        lemma_move_class(l, y, b, end, x);
        assert(rank_class(a + b + end, x) == rank_class(whole, x));
    }
}

/// The merge of two sorted halves, `a` before `b` among equals, written from
/// the last element to the first.
#[verifier::spinoff_prover]
fn merge<T: Ranked>(a: Vec<T>, b: Vec<T>) -> (r: Vec<T>)
    requires
        ranked(a@),
        ranked(b@),
    ensures
        stable_sort_of(a@ + b@, r@),
{
    let mut a: Vec<T> = a;
    let mut b: Vec<T> = b;
    let ghost whole = a@ + b@;
    // `back` holds the end of the result, last element first.
    let mut back: Vec<T> = Vec::new();
    let ghost mut end: Seq<T> = Seq::empty();
    assert(a@ + b@ + end =~= whole);
    while a.len() > 0 || b.len() > 0
        invariant
            end == back@.reverse(),
            halfway(a@, b@, end, whole),
        decreases a@.len() + b@.len(),
    {
        let from_b: bool = if a.len() == 0 {
            true
        } else if b.len() == 0 {
            false
        } else {
            a[a.len() - 1].not_after(&b[b.len() - 1])
        };
        if from_b {
            proof {
                lemma_take_right(a@, b@, end, whole);
                end = seq![b@.last()] + end;
            }
            back.push(b.pop().unwrap());
        } else {
            proof {
                lemma_take_left(a@, b@, end, whole);
                end = seq![a@.last()] + end;
            }
            back.push(a.pop().unwrap());
        }
        assert(end =~= back@.reverse());
    }
    assert(a@ + b@ + end =~= end);
    turn_round(back)
}

/// Stable merge sort.
pub fn stable_sort<T: Ranked>(v: Vec<T>) -> (r: Vec<T>)
    ensures
        stable_sort_of(v@, r@),
    decreases v@.len(),
{
    if v.len() <= 1 {
        return v;
    }
    let mut left: Vec<T> = v;
    let mid: usize = left.len() / 2;
    let right: Vec<T> = left.split_off(mid);
    let ghost l0 = left@;
    let ghost r0 = right@;
    proof {
        assert(v@ =~= l0 + r0);
    }
    let a: Vec<T> = stable_sort(left);
    let b: Vec<T> = stable_sort(right);
    let r: Vec<T> = merge(a, b);
    proof {
        vstd::seq_lib::lemma_multiset_commutative(l0, r0);
        vstd::seq_lib::lemma_multiset_commutative(a@, b@);
        assert forall|x: T| #[trigger] rank_class(r@, x) == rank_class(v@, x) by {
            assert(rank_class(r@, x) == rank_class(a@ + b@, x));
            lemma_class_concat(l0, r0, x);
            lemma_class_concat(a@, b@, x);
            assert(rank_class(a@, x) == rank_class(l0, x));
            assert(rank_class(b@, x) == rank_class(r0, x));
        }
    }
    r
}

impl Ranked for String {
    open spec fn rank_le(a: Self, b: Self) -> bool {
        lex_le(a@, b@)
    }

    proof fn rank_total(a: Self, b: Self) {
        law_lex_total(a@, b@);
    }

    proof fn rank_transitive(a: Self, b: Self, c: Self) {
        law_lex_total(a@, b@);
        law_lex_total(b@, c@);
        law_lex_total(a@, c@);
        if lex_lt(c@, a@) {
            if lex_lt(a@, b@) {
                law_lex_transitive(c@, a@, b@);
            }
        }
    }

    fn not_after(&self, other: &Self) -> (r: bool) {
        !before(other.as_str(), self.as_str())
    }
}

/// Names in strictly ascending dictionary order.
pub open spec fn ascending(s: Seq<Seq<char>>) -> bool {
    forall|i: int, j: int| 0 <= i < j < s.len() ==> lex_lt(#[trigger] s[i], #[trigger] s[j])
}

/// A map from names to values; names stand in ascending order, each once.
pub struct NameMap<V> {
    pub names: Vec<String>,
    pub values: Vec<V>,
}

impl<V> NameMap<V> {
    pub open spec fn wf(self) -> bool {
        self.names@.len() == self.values@.len() && ascending(views(self.names@))
    }

    /// The map as a mathematical one.
    pub open spec fn as_map(self) -> Map<Seq<char>, V> {
        Map::new(
            |k: Seq<char>| views(self.names@).contains(k),
            |k: Seq<char>| self.values@[views(self.names@).index_of(k)],
        )
    }

    /// Each entry of the vectors is an entry of the map.
    pub proof fn lemma_entry(self, i: int)
        requires
            self.wf(),
            0 <= i < self.names@.len(),
        ensures
            self.as_map().dom().contains(self.names@[i]@),
            self.as_map()[self.names@[i]@] == self.values@[i],
    {
        let s = views(self.names@);
        let k = self.names@[i]@;
        assert(s[i] == k);
        let j = s.index_of(k);
        assert(s.contains(k));
        if j < i {
            law_lex_total(s[j], s[i]);
        } else if i < j {
            law_lex_total(s[i], s[j]);
        }
    }

    /// Different entries have different names.
    pub proof fn lemma_distinct(self, i: int, j: int)
        requires
            self.wf(),
            0 <= i < self.names@.len(),
            0 <= j < self.names@.len(),
            i != j,
        ensures
            self.names@[i]@ != self.names@[j]@,
    {
        let s = views(self.names@);
        law_lex_total(s[i], s[i]);
        if i < j {
            assert(lex_lt(s[i], s[j]));
        } else {
            assert(lex_lt(s[j], s[i]));
        }
    }

    /// With the same names, the same names are bound.
    pub proof fn lemma_keeps(self, n: Self)
        requires
            self.wf(),
            n.names == self.names,
            n.values@.len() == self.values@.len(),
        ensures
            n.wf(),
            n.as_map().dom() == self.as_map().dom(),
    {
        assert(n.as_map().dom() =~= self.as_map().dom());
    }

    pub fn new() -> (r: Self)
        ensures
            r.wf(),
            r.names@.len() == 0,
            r.as_map() == Map::<Seq<char>, V>::empty(),
    {
        let r: NameMap<V> = NameMap { names: Vec::new(), values: Vec::new() };
        assert(r.as_map() =~= Map::<Seq<char>, V>::empty());
        r
    }

    /// The first position whose name is not before `key`.
    pub fn lower_bound(&self, key: &str) -> (i: usize)
        requires
            self.wf(),
        ensures
            i <= self.names@.len(),
            forall|j: int| 0 <= j < i ==> lex_lt(#[trigger] self.names@[j]@, key@),
            forall|j: int| i <= j < self.names@.len() ==> !lex_lt(#[trigger] self.names@[j]@, key@),
    {
        let mut lo: usize = 0;
        let mut hi: usize = self.names.len();
        while lo < hi
            invariant
                self.wf(),
                lo <= hi <= self.names@.len(),
                forall|j: int| 0 <= j < lo ==> lex_lt(#[trigger] self.names@[j]@, key@),
                forall|j: int|
                    hi <= j < self.names@.len() ==> !lex_lt(#[trigger] self.names@[j]@, key@),
            decreases hi - lo,
        {
            let mid: usize = lo + (hi - lo) / 2;
            let ghost s = views(self.names@);
            if before(self.names[mid].as_str(), key) {
                proof {
                    assert forall|j: int| 0 <= j < mid + 1 implies lex_lt(
                        #[trigger] self.names@[j]@,
                        key@,
                    ) by {
                        if j < mid {
                            assert(lex_lt(s[j], s[mid as int]));
                            law_lex_transitive(s[j], s[mid as int], key@);
                        }
                    }
                }
                lo = mid + 1;
            } else {
                proof {
                    assert forall|j: int| mid <= j < self.names@.len() implies !lex_lt(
                        #[trigger] self.names@[j]@,
                        key@,
                    ) by {
                        if j > mid {
                            assert(lex_lt(s[mid as int], s[j]));
                            if lex_lt(s[j], key@) {
                                law_lex_transitive(s[mid as int], s[j], key@);
                            }
                        }
                    }
                }
                hi = mid;
            }
        }
        lo
    }

    /// Where `key` stands, if it is there.
    pub fn position(&self, key: &str) -> (r: Option<usize>)
        requires
            self.wf(),
        ensures
            match r {
                Some(i) => i < self.names@.len() && self.names@[i as int]@ == key@
                    && self.as_map().dom().contains(key@) && self.as_map()[key@]
                    == self.values@[i as int],
                None => !self.as_map().dom().contains(key@),
            },
    {
        let i: usize = self.lower_bound(key);
        if i < self.names.len() && !before(key, self.names[i].as_str()) {
            proof {
                law_lex_total(self.names@[i as int]@, key@);
                self.lemma_entry(i as int);
            }
            Some(i)
        } else {
            proof {
                let s = views(self.names@);
                assert forall|j: int| 0 <= j < s.len() implies s[j] != key@ by {
                    law_lex_total(key@, key@);
                    assert(s[j] == self.names@[j]@);
                    if i < j {
                        assert(lex_lt(s[i as int], s[j]));
                        assert(lex_lt(key@, s[i as int]));
                        law_lex_transitive(key@, s[i as int], s[j]);
                    }
                }
            }
            None
        }
    }

    pub fn get(&self, key: &str) -> (r: Option<&V>)
        requires
            self.wf(),
        ensures
            match r {
                Some(v) => self.as_map().dom().contains(key@) && *v == self.as_map()[key@],
                None => !self.as_map().dom().contains(key@),
            },
    {
        match self.position(key) {
            Some(i) => Some(&self.values[i]),
            None => None,
        }
    }

    pub fn contains(&self, key: &str) -> (r: bool)
        requires
            self.wf(),
        ensures
            r == self.as_map().dom().contains(key@),
    {
        self.position(key).is_some()
    }

    /// Bind `key` to `value`, replacing what it was bound to.
    pub fn put(&mut self, key: String, value: V)
        requires
            old(self).wf(),
        ensures
            final(self).wf(),
            final(self).as_map() == old(self).as_map().insert(key@, value),
    {
        let ghost o = *self;
        match self.position(key.as_str()) {
            Some(i) => {
                self.values.set(i, value);
                proof {
                    o.lemma_keeps(*self);
                    assert forall|k: Seq<char>| #[trigger]
                        self.as_map().dom().contains(k) implies self.as_map()[k]
                        == o.as_map().insert(key@, value)[k] by {
                        let j = views(self.names@).index_of(k);
                        self.lemma_entry(j);
                        self.lemma_entry(i as int);
                        o.lemma_entry(j);
                        if j != i {
                            if j < i {
                                law_lex_total(views(self.names@)[j], views(self.names@)[i as int]);
                            } else {
                                law_lex_total(views(self.names@)[i as int], views(self.names@)[j]);
                            }
                        }
                    }
                    assert(self.as_map() =~= o.as_map().insert(key@, value));
                }
            },
            None => {
                let i: usize = self.lower_bound(key.as_str());
                let ghost k0 = key@;
                self.names.insert(i, key);
                self.values.insert(i, value);
                proof {
                    assert(views(self.names@) =~= views(o.names@).insert(i as int, k0));
                    self.lemma_inserted(o, i as int, k0, value);
                }
            },
        }
    }

    proof fn lemma_inserted(self, o: Self, i: int, k0: Seq<char>, v: V)
        requires
            o.wf(),
            0 <= i <= o.names@.len(),
            self.names@.len() == o.names@.len() + 1,
            views(self.names@) == views(o.names@).insert(i, k0),
            self.values@ == o.values@.insert(i, v),
            !o.as_map().dom().contains(k0),
            forall|j: int| 0 <= j < i ==> lex_lt(#[trigger] o.names@[j]@, k0),
            forall|j: int| i <= j < o.names@.len() ==> !lex_lt(#[trigger] o.names@[j]@, k0),
        ensures
            self.wf(),
            self.as_map() == o.as_map().insert(k0, v),
    {
        let s = views(self.names@);
        let t = views(o.names@);
        assert forall|a: int, b: int| 0 <= a < b < s.len() implies lex_lt(
            #[trigger] s[a],
            #[trigger] s[b],
        ) by {
            if a == i {
                assert(t[b - 1] == o.names@[b - 1]@);
                assert(t.contains(t[b - 1]));
                law_lex_total(t[b - 1], k0);
            } else if b == i {
                assert(t[a] == o.names@[a]@);
            } else {
                let aa = if a < i { a } else { a - 1 };
                let bb = if b < i { b } else { b - 1 };
                assert(lex_lt(t[aa], t[bb]));
            }
        }
        assert(self.wf());
        assert forall|k: Seq<char>| #[trigger]
            o.as_map().insert(k0, v).dom().contains(k) implies self.as_map().dom().contains(k)
            && self.as_map()[k] == o.as_map().insert(k0, v)[k] by {
            if k == k0 {
                self.lemma_entry(i);
                assert(s[i] == k0);
            } else {
                let j = t.index_of(k);
                o.lemma_entry(j);
                let jj = if j < i { j } else { j + 1 };
                assert(s[jj] == k);
                self.lemma_entry(jj);
            }
        }
        assert forall|k: Seq<char>| #[trigger]
            self.as_map().dom().contains(k) implies o.as_map().insert(k0, v).dom().contains(k) by {
            let j = s.index_of(k);
            if j != i {
                let jj = if j < i { j } else { j - 1 };
                assert(t[jj] == k);
            }
        }
        assert(self.as_map() =~= o.as_map().insert(k0, v));
    }
}

} // verus!
