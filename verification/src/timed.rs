//! A map keyed by an instant and a name, kept in the order of its keys: by time
//! first, by name within an instant.
use crate::text::{before, law_lex_total, law_lex_transitive, lex_lt};
use vstd::prelude::*;
use vstd::string::*;

verus! {

/// An instant and a name.
#[derive(Debug)]
pub struct TimedKey {
    pub time: u64,
    pub name: String,
}

impl View for TimedKey {
    type V = (u64, Seq<char>);

    open spec fn view(&self) -> (u64, Seq<char>) {
        (self.time, self.name@)
    }
}

/// `a` comes strictly before `b`: earlier, or in the same instant and before it
/// in dictionary order.
pub open spec fn key_lt(a: (u64, Seq<char>), b: (u64, Seq<char>)) -> bool {
    a.0 < b.0 || (a.0 == b.0 && lex_lt(a.1, b.1))
}

/// The order is total and strict.
pub proof fn law_keys_total(a: (u64, Seq<char>), b: (u64, Seq<char>))
    ensures
        key_lt(a, b) || key_lt(b, a) || a == b,
        !(key_lt(a, b) && key_lt(b, a)),
        !key_lt(a, a),
{
    law_lex_total(a.1, b.1);
}

/// The order is transitive.
pub proof fn law_keys_transitive(
    a: (u64, Seq<char>),
    b: (u64, Seq<char>),
    c: (u64, Seq<char>),
)
    requires
        key_lt(a, b),
        key_lt(b, c),
    ensures
        key_lt(a, c),
{
    if a.0 == b.0 && b.0 == c.0 {
        law_lex_transitive(a.1, b.1, c.1);
    }
}

/// Whether the key `(t, n)` comes strictly before the key `(u, m)`.
pub fn key_before(t: u64, n: &str, u: u64, m: &str) -> (r: bool)
    ensures
        r == key_lt((t, n@), (u, m@)),
{
    t < u || (t == u && before(n, m))
}

/// The keys as mathematical values.
pub open spec fn key_views(s: Seq<TimedKey>) -> Seq<(u64, Seq<char>)> {
    s.map_values(|k: TimedKey| k@)
}

/// Keys in strictly ascending order.
pub open spec fn keys_ascend(s: Seq<(u64, Seq<char>)>) -> bool {
    forall|i: int, j: int| 0 <= i < j < s.len() ==> key_lt(#[trigger] s[i], #[trigger] s[j])
}

/// A map from instants and names to values.
pub struct TimedMap<V> {
    pub keys: Vec<TimedKey>,
    pub values: Vec<V>,
}

impl<V> TimedMap<V> {
    pub open spec fn wf(self) -> bool {
        self.keys@.len() == self.values@.len() && keys_ascend(key_views(self.keys@))
    }

    /// The map as a mathematical one.
    pub open spec fn as_map(self) -> Map<(u64, Seq<char>), V> {
        Map::new(
            |k: (u64, Seq<char>)| key_views(self.keys@).contains(k),
            |k: (u64, Seq<char>)| self.values@[key_views(self.keys@).index_of(k)],
        )
    }

    /// Each entry of the vectors is an entry of the map.
    pub proof fn lemma_entry(self, i: int)
        requires
            self.wf(),
            0 <= i < self.keys@.len(),
        ensures
            self.as_map().dom().contains(self.keys@[i]@),
            self.as_map()[self.keys@[i]@] == self.values@[i],
    {
        let s = key_views(self.keys@);
        let k = self.keys@[i]@;
        assert(s[i] == k);
        let j = s.index_of(k);
        assert(s.contains(k));
        if j < i {
            law_keys_total(s[j], s[i]);
        } else if i < j {
            law_keys_total(s[i], s[j]);
        }
    }

    /// Different entries have different keys.
    pub proof fn lemma_distinct(self, i: int, j: int)
        requires
            self.wf(),
            0 <= i < self.keys@.len(),
            0 <= j < self.keys@.len(),
            i != j,
        ensures
            self.keys@[i]@ != self.keys@[j]@,
    {
        let s = key_views(self.keys@);
        law_keys_total(s[i], s[i]);
        if i < j {
            assert(key_lt(s[i], s[j]));
        } else {
            assert(key_lt(s[j], s[i]));
        }
    }

    pub fn new() -> (r: Self)
        ensures
            r.wf(),
            r.keys@.len() == 0,
            r.as_map() == Map::<(u64, Seq<char>), V>::empty(),
    {
        let r: TimedMap<V> = TimedMap { keys: Vec::new(), values: Vec::new() };
        assert(r.as_map() =~= Map::<(u64, Seq<char>), V>::empty());
        r
    }

    /// The first position whose key is not before the given one.
    pub fn lower_bound(&self, time: u64, name: &str) -> (i: usize)
        requires
            self.wf(),
        ensures
            i <= self.keys@.len(),
            forall|j: int| 0 <= j < i ==> key_lt(#[trigger] self.keys@[j]@, (time, name@)),
            forall|j: int|
                i <= j < self.keys@.len() ==> !key_lt(#[trigger] self.keys@[j]@, (time, name@)),
    {
        let ghost key = (time, name@);
        let mut lo: usize = 0;
        let mut hi: usize = self.keys.len();
        while lo < hi
            invariant
                self.wf(),
                key == (time, name@),
                lo <= hi <= self.keys@.len(),
                forall|j: int| 0 <= j < lo ==> key_lt(#[trigger] self.keys@[j]@, key),
                forall|j: int|
                    hi <= j < self.keys@.len() ==> !key_lt(#[trigger] self.keys@[j]@, key),
            decreases hi - lo,
        {
            let mid: usize = lo + (hi - lo) / 2;
            let ghost s = key_views(self.keys@);
            if key_before(self.keys[mid].time, self.keys[mid].name.as_str(), time, name) {
                proof {
                    assert forall|j: int| 0 <= j < mid + 1 implies key_lt(
                        #[trigger] self.keys@[j]@,
                        key,
                    ) by {
                        if j < mid {
                            assert(key_lt(s[j], s[mid as int]));
                            law_keys_transitive(s[j], s[mid as int], key);
                        }
                    }
                }
                lo = mid + 1;
            } else {
                proof {
                    assert forall|j: int| mid <= j < self.keys@.len() implies !key_lt(
                        #[trigger] self.keys@[j]@,
                        key,
                    ) by {
                        if j > mid {
                            assert(key_lt(s[mid as int], s[j]));
                            if key_lt(s[j], key) {
                                law_keys_transitive(s[mid as int], s[j], key);
                            }
                        }
                    }
                }
                hi = mid;
            }
        }
        lo
    }

    /// Where the key stands, if it is there.
    pub fn position(&self, time: u64, name: &str) -> (r: Option<usize>)
        requires
            self.wf(),
        ensures
            match r {
                Some(i) => i < self.keys@.len() && self.keys@[i as int]@ == (time, name@)
                    && self.as_map().dom().contains((time, name@)) && self.as_map()[(time, name@)]
                    == self.values@[i as int],
                None => !self.as_map().dom().contains((time, name@)),
            },
    {
        let ghost key = (time, name@);
        let i: usize = self.lower_bound(time, name);
        if i < self.keys.len() && !key_before(
            time,
            name,
            self.keys[i].time,
            self.keys[i].name.as_str(),
        ) {
            proof {
                law_keys_total(self.keys@[i as int]@, key);
                self.lemma_entry(i as int);
            }
            Some(i)
        } else {
            proof {
                let s = key_views(self.keys@);
                assert forall|j: int| 0 <= j < s.len() implies s[j] != key by {
                    law_keys_total(key, key);
                    assert(s[j] == self.keys@[j]@);
                    if i < j {
                        assert(key_lt(s[i as int], s[j]));
                        assert(key_lt(key, s[i as int]));
                        law_keys_transitive(key, s[i as int], s[j]);
                    }
                }
            }
            None
        }
    }

    pub fn contains(&self, time: u64, name: &str) -> (r: bool)
        requires
            self.wf(),
        ensures
            r == self.as_map().dom().contains((time, name@)),
    {
        self.position(time, name).is_some()
    }

    /// Bind the key to `value`, replacing what it was bound to. Whether the key
    /// is new.
    pub fn put(&mut self, time: u64, name: String, value: V) -> (fresh: bool)
        requires
            old(self).wf(),
        ensures
            final(self).wf(),
            final(self).as_map() == old(self).as_map().insert((time, name@), value),
            fresh == !old(self).as_map().dom().contains((time, name@)),
            final(self).keys@.len() == old(self).keys@.len() + (if fresh {
                1int
            } else {
                0
            }),
    {
        let ghost o = *self;
        let ghost key = (time, name@);
        match self.position(time, name.as_str()) {
            Some(i) => {
                self.values.set(i, value);
                proof {
                    assert(self.as_map().dom() =~= o.as_map().dom());
                    assert forall|k: (u64, Seq<char>)| #[trigger]
                        self.as_map().dom().contains(k) implies self.as_map()[k]
                        == o.as_map().insert(key, value)[k] by {
                        let j = key_views(self.keys@).index_of(k);
                        self.lemma_entry(j);
                        self.lemma_entry(i as int);
                        o.lemma_entry(j);
                        if j != i {
                            self.lemma_distinct(i as int, j);
                        }
                    }
                    assert(self.as_map() =~= o.as_map().insert(key, value));
                }
                false
            },
            None => {
                let i: usize = self.lower_bound(time, name.as_str());
                self.keys.insert(i, TimedKey { time, name });
                self.values.insert(i, value);
                proof {
                    assert(key_views(self.keys@) =~= key_views(o.keys@).insert(i as int, key));
                    self.lemma_inserted(o, i as int, key, value);
                }
                true
            },
        }
    }

    proof fn lemma_inserted(self, o: Self, i: int, k0: (u64, Seq<char>), v: V)
        requires
            o.wf(),
            0 <= i <= o.keys@.len(),
            self.keys@.len() == o.keys@.len() + 1,
            key_views(self.keys@) == key_views(o.keys@).insert(i, k0),
            self.values@ == o.values@.insert(i, v),
            !o.as_map().dom().contains(k0),
            forall|j: int| 0 <= j < i ==> key_lt(#[trigger] o.keys@[j]@, k0),
            forall|j: int| i <= j < o.keys@.len() ==> !key_lt(#[trigger] o.keys@[j]@, k0),
        ensures
            self.wf(),
            self.as_map() == o.as_map().insert(k0, v),
    {
        let s = key_views(self.keys@);
        let t = key_views(o.keys@);
        assert forall|a: int, b: int| 0 <= a < b < s.len() implies key_lt(
            #[trigger] s[a],
            #[trigger] s[b],
        ) by {
            if a == i {
                assert(t[b - 1] == o.keys@[b - 1]@);
                assert(t.contains(t[b - 1]));
                law_keys_total(t[b - 1], k0);
            } else if b == i {
                assert(t[a] == o.keys@[a]@);
            } else {
                let aa = if a < i { a } else { a - 1 };
                let bb = if b < i { b } else { b - 1 };
                assert(key_lt(t[aa], t[bb]));
            }
        }
        assert(self.wf());
        assert forall|k: (u64, Seq<char>)| #[trigger]
            o.as_map().insert(k0, v).dom().contains(k) implies self.as_map().dom().contains(k)
            && self.as_map()[k] == o.as_map().insert(k0, v)[k] by {
            if k == k0 {
                self.lemma_entry(i);
                assert(s[i] == k0);
            } else {
                let j = t.index_of(k);
                o.lemma_entry(j);
                let jj = if j < i { j } else { j + 1 };
                assert(s[jj] == k);
                self.lemma_entry(jj);
            }
        }
        assert forall|k: (u64, Seq<char>)| #[trigger]
            self.as_map().dom().contains(k) implies o.as_map().insert(k0, v).dom().contains(k) by {
            let j = s.index_of(k);
            if j != i {
                let jj = if j < i { j } else { j - 1 };
                assert(t[jj] == k);
            }
        }
        assert(self.as_map() =~= o.as_map().insert(k0, v));
    }

    /// Forget every key before the instant `time`.
    pub fn drop_before(&mut self, time: u64)
        requires
            old(self).wf(),
        ensures
            final(self).wf(),
            final(self).as_map() == old(self).as_map().restrict(
                Set::new(|k: (u64, Seq<char>)| k.0 >= time),
            ),
    {
        let ghost o = *self;
        let i: usize = self.lower_bound(time, "");
        proof {
            reveal_strlit("");
            assert(""@ =~= Seq::<char>::empty());
        }
        let keys: Vec<TimedKey> = self.keys.split_off(i);
        let values: Vec<V> = self.values.split_off(i);
        self.keys = keys;
        self.values = values;
        proof {
            let s = key_views(self.keys@);
            let t = key_views(o.keys@);
            assert(s =~= t.skip(i as int));
            assert forall|a: int, b: int| 0 <= a < b < s.len() implies key_lt(
                #[trigger] s[a],
                #[trigger] s[b],
            ) by {
                assert(key_lt(t[a + i], t[b + i]));
            }
            assert forall|j: int| 0 <= j < t.len() implies (#[trigger] t[j].0 >= time) == (j >= i) by {
                assert(t[j] == o.keys@[j]@);
                if j < i {
                    assert(key_lt(o.keys@[j]@, (time, ""@)));
                } else {
                    assert(!key_lt(o.keys@[j]@, (time, ""@)));
                }
            }
            let kept = o.as_map().restrict(Set::new(|k: (u64, Seq<char>)| k.0 >= time));
            assert forall|k: (u64, Seq<char>)| #[trigger] kept.dom().contains(k) implies
                self.as_map().dom().contains(k) && self.as_map()[k] == kept[k] by {
                let j = t.index_of(k);
                assert(t[j] == k);
                o.lemma_entry(j);
                assert(s[j - i] == k);
                self.lemma_entry(j - i);
            }
            assert forall|k: (u64, Seq<char>)| #[trigger]
                self.as_map().dom().contains(k) implies kept.dom().contains(k) by {
                let j = s.index_of(k);
                assert(t[j + i] == k);
            }
            assert(self.as_map() =~= kept);
        }
    }
}

} // verus!
