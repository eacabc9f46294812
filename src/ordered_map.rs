//! A string-keyed map that remembers the order in which keys were first
//! inserted, so that every scan over it visits the entries in a fixed order.
use vstd::prelude::*;

verus! {

/// The first pair, in order, whose key satisfies `p`.
pub open spec fn first_pair<V>(s: Seq<(Seq<char>, V)>, p: spec_fn(Seq<char>) -> bool) -> Option<
    (Seq<char>, V),
>
    decreases s.len(),
{
    if s.len() == 0 {
        None
    } else if p(s[0].0) {
        Some(s[0])
    } else {
        first_pair(s.drop_first(), p)
    }
}

/// The value of the first pair, in order, whose key satisfies `p`.
pub open spec fn first_value<V>(s: Seq<(Seq<char>, V)>, p: spec_fn(Seq<char>) -> bool) -> Option<V> {
    match first_pair(s, p) {
        Some(q) => Some(q.1),
        None => None,
    }
}

/// The predicate "the key is exactly `k`".
pub open spec fn key_is(k: Seq<char>) -> spec_fn(Seq<char>) -> bool {
    |key: Seq<char>| key == k
}

/// The value stored under `k`, if any.
pub open spec fn lookup<V>(s: Seq<(Seq<char>, V)>, k: Seq<char>) -> Option<V> {
    first_value(s, key_is(k))
}

pub open spec fn has_key<V>(s: Seq<(Seq<char>, V)>, k: Seq<char>) -> bool {
    exists|i: int| 0 <= i < s.len() && s[i].0 == k
}

pub open spec fn keys_unique<V>(s: Seq<(Seq<char>, V)>) -> bool {
    forall|i: int, j: int| 0 <= i < j < s.len() ==> s[i].0 != s[j].0
}

/// Inserting `k -> v`: an existing key keeps its place and takes the new
/// value; a new key goes to the end.
pub open spec fn insert_pair<V>(s: Seq<(Seq<char>, V)>, k: Seq<char>, v: V) -> Seq<(Seq<char>, V)> {
    if has_key(s, k) {
        let i = choose|i: int| 0 <= i < s.len() && s[i].0 == k;
        s.update(i, (k, v))
    } else {
        s.push((k, v))
    }
}

/// Inserting each pair of `ps` in turn.
pub open spec fn insert_all<V>(s: Seq<(Seq<char>, V)>, ps: Seq<(Seq<char>, V)>) -> Seq<(Seq<char>, V)>
    decreases ps.len(),
{
    if ps.len() == 0 {
        s
    } else {
        insert_all(insert_pair(s, ps[0].0, ps[0].1), ps.drop_first())
    }
}

/// Inserting `a + b` is inserting `a`, then `b`.
pub proof fn lemma_insert_all_concat<V>(
    s: Seq<(Seq<char>, V)>,
    a: Seq<(Seq<char>, V)>,
    b: Seq<(Seq<char>, V)>,
)
    ensures
        insert_all(s, a + b) == insert_all(insert_all(s, a), b),
    decreases a.len(),
{
    if a.len() == 0 {
        assert(a + b =~= b);
    } else {
        assert((a + b).drop_first() =~= a.drop_first() + b);
        lemma_insert_all_concat(insert_pair(s, a[0].0, a[0].1), a.drop_first(), b);
    }
}

/// Scanning from position `i` finds what scanning from the start finds, once
/// the pairs before `i` are known not to satisfy `p`.
pub proof fn lemma_first_pair_skip<V>(s: Seq<(Seq<char>, V)>, p: spec_fn(Seq<char>) -> bool, i: int)
    requires
        0 <= i <= s.len(),
        forall|j: int| 0 <= j < i ==> !p(#[trigger] s[j].0),
    ensures
        first_pair(s, p) == first_pair(s.skip(i), p),
    decreases i,
{
    if i > 0 {
        lemma_first_pair_skip(s.drop_first(), p, i - 1);
        assert(s.drop_first().skip(i - 1) =~= s.skip(i));
    } else {
        assert(s.skip(0) =~= s);
    }
}

/// One step of a scan: the first pair from `i` is the pair at `i` when its key
/// satisfies `p`, else the first pair from `i + 1`.
pub proof fn lemma_first_pair_step<V>(s: Seq<(Seq<char>, V)>, p: spec_fn(Seq<char>) -> bool, i: int)
    requires
        0 <= i < s.len(),
    ensures
        first_pair(s.skip(i), p) == if p(s[i].0) {
            Some(s[i])
        } else {
            first_pair(s.skip(i + 1), p)
        },
{
    assert(s.skip(i).drop_first() =~= s.skip(i + 1));
}

/// The first pair at or after `i` is the one at `i` when it satisfies `p` and
/// none before it does.
pub proof fn lemma_first_pair_at<V>(s: Seq<(Seq<char>, V)>, p: spec_fn(Seq<char>) -> bool, i: int)
    requires
        0 <= i < s.len(),
        p(s[i].0),
        forall|j: int| 0 <= j < i ==> !p(#[trigger] s[j].0),
    ensures
        first_pair(s, p) == Some(s[i]),
{
    lemma_first_pair_skip(s, p, i);
    lemma_first_pair_step(s, p, i);
}

/// With unique keys, the value stored under `s[i].0` is `s[i].1`.
pub proof fn lemma_lookup_at<V>(s: Seq<(Seq<char>, V)>, i: int)
    requires
        keys_unique(s),
        0 <= i < s.len(),
    ensures
        lookup(s, s[i].0) == Some(s[i].1),
{
    lemma_first_pair_at(s, key_is(s[i].0), i);
}

/// A scan in which no pair satisfies `p` finds nothing.
pub proof fn lemma_first_pair_none<V>(s: Seq<(Seq<char>, V)>, p: spec_fn(Seq<char>) -> bool)
    requires
        forall|j: int| 0 <= j < s.len() ==> !p(#[trigger] s[j].0),
    ensures
        first_pair(s, p) is None,
{
    lemma_first_pair_skip(s, p, s.len() as int);
    assert(s.skip(s.len() as int).len() == 0);
}

/// What a scan finds satisfies `p` and stands in `s`.
pub proof fn lemma_first_pair_found<V>(s: Seq<(Seq<char>, V)>, p: spec_fn(Seq<char>) -> bool)
    ensures
        first_pair(s, p) matches Some(q) ==> p(q.0) && s.contains(q),
    decreases s.len(),
{
    if s.len() > 0 {
        lemma_first_pair_found(s.drop_first(), p);
        if !p(s[0].0) {
            if let Some(q) = first_pair(s, p) {
                let k = choose|k: int| 0 <= k < s.drop_first().len() && s.drop_first()[k] == q;
                assert(s[k + 1] == q);
            }
        }
    } 
}

/// A key that no pair holds has no value.
pub proof fn lemma_lookup_absent<V>(s: Seq<(Seq<char>, V)>, k: Seq<char>)
    requires
        !has_key(s, k),
    ensures
        lookup(s, k) is None,
{
    lemma_first_pair_none(s, key_is(k));
}

/// A map from strings to `V` whose keys are unique and kept in the order in
/// which each was first inserted.
#[derive(Debug)]
pub struct OrderedMap<V> {
    pairs: Vec<(String, V)>,
}

impl<V> View for OrderedMap<V> {
    type V = Seq<(Seq<char>, V)>;

    closed spec fn view(&self) -> Seq<(Seq<char>, V)> {
        self.pairs@.map_values(|p: (String, V)| (p.0@, p.1))
    }
}

impl<V: Clone> Clone for OrderedMap<V> {
    /// A copy with the same keys in the same order, each value cloned.
    fn clone(&self) -> Self {
        proof {
            use_type_invariant(self);
        }
        let mut pairs: Vec<(String, V)> = Vec::new();
        let mut i: usize = 0;
        while i < self.pairs.len()
            invariant
                i <= self.pairs@.len(),
                pairs@.len() == i,
                keys_unique(self@),
                forall|j: int| 0 <= j < i ==> #[trigger] pairs@[j].0@ == self.pairs@[j].0@,
            decreases self.pairs.len() - i,
        {
            pairs.push((self.pairs[i].0.clone(), self.pairs[i].1.clone()));
            i = i + 1;
        }
        let ghost view = pairs@.map_values(|p: (String, V)| (p.0@, p.1));
        assert(keys_unique(view)) by {
            assert forall|a: int, b: int| 0 <= a < b < view.len() implies view[a].0 != view[b].0 by {
                assert(self@[a].0 != self@[b].0);
            }
        }
        OrderedMap { pairs }
    }
}

impl<V> OrderedMap<V> {
    #[verifier::type_invariant]
    spec fn unique(self) -> bool {
        keys_unique(self@)
    }

    /// No key is held twice.
    pub fn keys_are_unique(&self)
        ensures
            keys_unique(self@),
    {
        proof {
            use_type_invariant(self);
        }
    }

    pub fn new() -> (r: Self)
        ensures
            r@ == Seq::<(Seq<char>, V)>::empty(),
    {
        let r = OrderedMap { pairs: Vec::new() };
        assert(r@ =~= Seq::<(Seq<char>, V)>::empty());
        r
    }

    pub fn len(&self) -> (r: usize)
        ensures
            r == self@.len(),
    {
        self.pairs.len()
    }

    pub fn is_empty(&self) -> (r: bool)
        ensures
            r == (self@.len() == 0),
    {
        self.pairs.len() == 0
    }

    pub fn key_at(&self, i: usize) -> (r: &String)
        requires
            i < self@.len(),
        ensures
            r@ == self@[i as int].0,
    {
        &self.pairs[i].0
    }

    pub fn value_at(&self, i: usize) -> (r: &V)
        requires
            i < self@.len(),
        ensures
            *r == self@[i as int].1,
    {
        &self.pairs[i].1
    }

    /// The position of `key`, if some pair holds it.
    fn position(&self, key: &String) -> (r: Option<usize>)
        ensures
            match r {
                Some(i) => i < self@.len() && self@[i as int].0 == key@,
                None => !has_key(self@, key@),
            },
    {
        let mut i: usize = 0;
        while i < self.pairs.len()
            invariant
                i <= self@.len(),
                self@.len() == self.pairs@.len(),
                forall|j: int| 0 <= j < i ==> self@[j].0 != key@,
            decreases self.pairs.len() - i,
        {
            if self.pairs[i].0 == *key {
                return Some(i);
            }
            i = i + 1;
        }
        None
    }

    pub fn get(&self, key: &str) -> (r: Option<&V>)
        ensures
            match r {
                Some(v) => lookup(self@, key@) == Some(*v),
                None => lookup(self@, key@) is None,
            },
    {
        proof {
            use_type_invariant(self);
        }
        let k = key.to_owned();
        match self.position(&k) {
            Some(i) => {
                proof {
                    lemma_lookup_at(self@, i as int);
                }
                Some(&self.pairs[i].1)
            },
            None => {
                proof {
                    lemma_lookup_absent(self@, key@);
                }
                None
            },
        }
    }

    pub fn contains_key(&self, key: &str) -> (r: bool)
        ensures
            r == (lookup(self@, key@) is Some),
    {
        self.get(key).is_some()
    }

    /// Takes out the pair at position `i`; the others keep their order.
    pub fn remove_at(&mut self, i: usize)
        requires
            i < old(self)@.len(),
        ensures
            final(self)@ == old(self)@.remove(i as int),
    {
        proof {
            use_type_invariant(&*self);
        }
        let ghost before = self@;
        let mut pairs: Vec<(String, V)> = Vec::new();
        std::mem::swap(&mut self.pairs, &mut pairs);
        assert(pairs@.map_values(|p: (String, V)| (p.0@, p.1)) == before);
        pairs.remove(i);
        let ghost after = pairs@.map_values(|p: (String, V)| (p.0@, p.1));
        assert(after =~= before.remove(i as int));
        assert(keys_unique(after)) by {
            assert forall|a: int, b: int| 0 <= a < b < after.len() implies after[a].0 != after[b].0 by {
                let a0 = if a < i { a } else { a + 1 };
                let b0 = if b < i { b } else { b + 1 };
                assert(after[a] == before[a0]);
                assert(after[b] == before[b0]);
            }
        }
        self.pairs = pairs;
    }

    /// Stores `value` under `key`, replacing the value that was there.
    pub fn insert(&mut self, key: String, value: V)
        ensures
            final(self)@ == insert_pair(old(self)@, key@, value),
    {
        proof {
            use_type_invariant(&*self);
        }
        let ghost k = key@;
        let ghost before = self@;
        let found = self.position(&key);
        let mut pairs: Vec<(String, V)> = Vec::new();
        std::mem::swap(&mut self.pairs, &mut pairs);
        let ghost view = pairs@.map_values(|p: (String, V)| (p.0@, p.1));
        assert(view == before);
        match found {
            Some(i) => {
                proof {
                    let j = choose|j: int| 0 <= j < before.len() && before[j].0 == k;
                    assert(j == i);
                }
                pairs.set(i, (key, value));
            },
            None => {
                pairs.push((key, value));
            },
        }
        assert(pairs@.map_values(|p: (String, V)| (p.0@, p.1)) =~= insert_pair(before, k, value));
        self.pairs = pairs;
    }
}

} // verus!
