//! A map keyed by strings that keeps its entries in ascending key order.

use crate::text::{
    chars_eq, chars_lt, chars_of, lemma_lex_irreflexive, lemma_lex_total, lemma_lex_transitive,
    lex_lt,
};
use vstd::prelude::*;

verus! {

/// Whether the keys of `pairs` ascend strictly in lexicographic order.
pub open spec fn sorted_by_key<T>(pairs: Seq<(Seq<char>, T)>) -> bool {
    forall|i: int, j: int|
        0 <= i < j < pairs.len() ==> lex_lt(#[trigger] pairs[i].0, #[trigger] pairs[j].0)
}

/// Whether some pair of `pairs` has the key `k`.
pub open spec fn has_key<T>(pairs: Seq<(Seq<char>, T)>, k: Seq<char>) -> bool {
    exists|i: int| 0 <= i < pairs.len() && #[trigger] pairs[i].0 == k
}

/// The map that holds each pair of `pairs` as a key and its value.
pub open spec fn map_of<T>(pairs: Seq<(Seq<char>, T)>) -> Map<Seq<char>, T> {
    Map::new(
        |k: Seq<char>| has_key(pairs, k),
        |k: Seq<char>| pairs[choose|i: int| 0 <= i < pairs.len() && #[trigger] pairs[i].0 == k].1,
    )
}

/// In a sorted sequence no key occurs twice.
pub proof fn lemma_sorted_distinct<T>(pairs: Seq<(Seq<char>, T)>)
    requires
        sorted_by_key(pairs),
    ensures
        forall|i: int, j: int|
            0 <= i < pairs.len() && 0 <= j < pairs.len() && #[trigger] pairs[i].0 == #[trigger] pairs[j].0
                ==> i == j,
{
    assert forall|i: int, j: int|
        0 <= i < pairs.len() && 0 <= j < pairs.len() && #[trigger] pairs[i].0 == #[trigger] pairs[j].0
    implies i == j by {
        lemma_lex_irreflexive(pairs[i].0);
    }
}

/// Each pair of a sorted sequence is an entry of its map.
pub proof fn lemma_map_of_entry<T>(pairs: Seq<(Seq<char>, T)>, i: int)
    requires
        sorted_by_key(pairs),
        0 <= i < pairs.len(),
    ensures
        map_of(pairs).contains_key(pairs[i].0),
        map_of(pairs)[pairs[i].0] == pairs[i].1,
{
    lemma_sorted_distinct(pairs);
}

/// The map of a sorted sequence has as many entries as the sequence has pairs.
pub proof fn lemma_map_of_len<T>(pairs: Seq<(Seq<char>, T)>)
    requires
        sorted_by_key(pairs),
    ensures
        map_of(pairs).dom().finite(),
        map_of(pairs).dom().len() == pairs.len(),
    decreases pairs.len(),
{
    if pairs.len() == 0 {
        assert(map_of(pairs).dom() =~= Set::<Seq<char>>::empty());
    } else {
        let init = pairs.drop_last();
        let last = pairs.last();
        assert forall|i: int, j: int| 0 <= i < j < init.len() implies lex_lt(
            #[trigger] init[i].0,
            #[trigger] init[j].0,
        ) by {
            assert(init[i] == pairs[i] && init[j] == pairs[j]);
        }
        lemma_map_of_len(init);
        lemma_sorted_distinct(pairs);
        assert forall|k: Seq<char>| map_of(pairs).dom().contains(k) <==> map_of(init).dom().insert(
            last.0,
        ).contains(k) by {
            if has_key(pairs, k) {
                let i = choose|i: int| 0 <= i < pairs.len() && #[trigger] pairs[i].0 == k;
                if i < init.len() {
                    assert(init[i].0 == k);
                }
            }
            if has_key(init, k) {
                let i = choose|i: int| 0 <= i < init.len() && #[trigger] init[i].0 == k;
                assert(pairs[i].0 == k);
            }
            if k == last.0 {
                assert(pairs[pairs.len() - 1].0 == k);
            }
        }
        assert(map_of(pairs).dom() =~= map_of(init).dom().insert(last.0));
        if has_key(init, last.0) {
            let i = choose|i: int| 0 <= i < init.len() && #[trigger] init[i].0 == last.0;
            assert(pairs[i].0 == pairs[pairs.len() - 1].0);
        }
    }
}

/// A new pair put into a sorted sequence adds its entry to the map.
pub proof fn lemma_map_of_insert<T>(pairs: Seq<(Seq<char>, T)>, p: int, k: Seq<char>, v: T)
    requires
        0 <= p <= pairs.len(),
        sorted_by_key(pairs),
        sorted_by_key(pairs.insert(p, (k, v))),
    ensures
        map_of(pairs.insert(p, (k, v))) == map_of(pairs).insert(k, v),
{
    let after = pairs.insert(p, (k, v));
    lemma_sorted_distinct(pairs);
    lemma_sorted_distinct(after);
    assert forall|x: Seq<char>| map_of(after).contains_key(x) <==> map_of(pairs).insert(
        k,
        v,
    ).contains_key(x) by {
        if has_key(after, x) {
            let i = choose|i: int| 0 <= i < after.len() && #[trigger] after[i].0 == x;
            if i < p {
                assert(pairs[i].0 == x);
            } else if i > p {
                assert(pairs[i - 1].0 == x);
            }
        }
        if has_key(pairs, x) {
            let i = choose|i: int| 0 <= i < pairs.len() && #[trigger] pairs[i].0 == x;
            if i < p {
                assert(after[i].0 == x);
            } else {
                assert(after[i + 1].0 == x);
            }
        }
        if x == k {
            assert(after[p].0 == x);
        }
    }
    assert forall|x: Seq<char>| map_of(after).contains_key(x) implies map_of(after)[x] == map_of(
        pairs,
    ).insert(k, v)[x] by {
        let i = choose|i: int| 0 <= i < after.len() && #[trigger] after[i].0 == x;
        lemma_map_of_entry(after, i);
        assert(after[p] == (k, v));
        assert(after[p].0 == k);
        if i < p {
            assert(pairs[i] == after[i]);
            assert(x != k);
            lemma_map_of_entry(pairs, i);
        } else if i > p {
            assert(pairs[i - 1] == after[i]);
            assert(x != k);
            lemma_map_of_entry(pairs, i - 1);
        } else {
            assert(x == k);
        }
    }
    assert(map_of(after) =~= map_of(pairs).insert(k, v));
}

/// A pair taken out of a sorted sequence takes its entry out of the map.
pub proof fn lemma_map_of_remove<T>(pairs: Seq<(Seq<char>, T)>, p: int)
    requires
        0 <= p < pairs.len(),
        sorted_by_key(pairs),
    ensures
        sorted_by_key(pairs.remove(p)),
        map_of(pairs.remove(p)) == map_of(pairs).remove(pairs[p].0),
{
    let after = pairs.remove(p);
    assert forall|i: int, j: int| 0 <= i < j < after.len() implies lex_lt(
        #[trigger] after[i].0,
        #[trigger] after[j].0,
    ) by {
        let i0 = if i < p { i } else { i + 1 };
        let j0 = if j < p { j } else { j + 1 };
        assert(after[i] == pairs[i0] && after[j] == pairs[j0]);
    }
    lemma_sorted_distinct(pairs);
    assert forall|x: Seq<char>| map_of(after).contains_key(x) <==> map_of(pairs).remove(
        pairs[p].0,
    ).contains_key(x) by {
        if has_key(after, x) {
            let i = choose|i: int| 0 <= i < after.len() && #[trigger] after[i].0 == x;
            let i0 = if i < p { i } else { i + 1 };
            assert(pairs[i0].0 == x);
        }
        if has_key(pairs, x) && x != pairs[p].0 {
            let i = choose|i: int| 0 <= i < pairs.len() && #[trigger] pairs[i].0 == x;
            if i < p {
                assert(after[i].0 == x);
            } else {
                assert(after[i - 1].0 == x);
            }
        }
    }
    assert forall|x: Seq<char>| map_of(after).contains_key(x) implies map_of(after)[x] == map_of(
        pairs,
    ).remove(pairs[p].0)[x] by {
        let i = choose|i: int| 0 <= i < after.len() && #[trigger] after[i].0 == x;
        let i0 = if i < p { i } else { i + 1 };
        assert(after[i] == pairs[i0]);
        lemma_map_of_entry(after, i);
        lemma_map_of_entry(pairs, i0);
    }
    assert(map_of(after) =~= map_of(pairs).remove(pairs[p].0));
}

/// A value that can be copied with its view kept.
pub trait ViewClone: View + Sized {
    /// A copy with the same view.
    fn view_clone(&self) -> (r: Self)
        ensures
            r@ == self@,
    ;
}

impl ViewClone for String {
    fn view_clone(&self) -> (r: Self) {
        self.clone()
    }
}

/// A map from strings to values of type `V`, held as a vector of entries
/// whose keys ascend strictly in lexicographic order.
#[derive(Debug)]
pub struct StringMap<V: View> {
    entries: Vec<(String, V)>,
}

impl<V: View> View for StringMap<V> {
    type V = Map<Seq<char>, V::V>;

    open spec fn view(&self) -> Map<Seq<char>, V::V> {
        map_of(self.pairs())
    }
}

impl<V: View> StringMap<V> {
    /// The entries in the order in which the map holds them, each key and
    /// value by its view.
    pub closed spec fn pairs(&self) -> Seq<(Seq<char>, V::V)> {
        self.entries@.map_values(|e: (String, V)| (e.0@, e.1@))
    }

    #[verifier::type_invariant]
    spec fn ordered(self) -> bool {
        sorted_by_key(self.pairs())
    }

    /// The empty map.
    pub fn new() -> (m: Self)
        ensures
            m.pairs() == Seq::<(Seq<char>, V::V)>::empty(),
            m@ == Map::<Seq<char>, V::V>::empty(),
    {
        let m = StringMap { entries: Vec::new() };
        assert(m.pairs() =~= Seq::<(Seq<char>, V::V)>::empty());
        assert(m@ =~= Map::<Seq<char>, V::V>::empty());
        m
    }

    /// The number of entries.
    pub fn len(&self) -> (n: usize)
        ensures
            n == self.pairs().len(),
            n == self@.dom().len(),
            sorted_by_key(self.pairs()),
    {
        proof {
            use_type_invariant(self);
            lemma_map_of_len(self.pairs());
        }
        self.entries.len()
    }

    /// The entries in ascending key order.
    pub fn entries(&self) -> (r: &Vec<(String, V)>)
        ensures
            r@.len() == self.pairs().len(),
            forall|i: int|
                0 <= i < r@.len() ==> (#[trigger] r@[i]).0@ == self.pairs()[i].0 && r@[i].1@
                    == self.pairs()[i].1,
            sorted_by_key(self.pairs()),
            forall|i: int|
                0 <= i < r@.len() ==> self@.contains_key((#[trigger] r@[i]).0@)
                    && self@[r@[i].0@] == r@[i].1@,
    {
        proof {
            use_type_invariant(self);
            assert forall|i: int| 0 <= i < self.entries@.len() implies self@.contains_key(
                (#[trigger] self.entries@[i]).0@,
            ) && self@[self.entries@[i].0@] == self.entries@[i].1@ by {
                lemma_map_of_entry(self.pairs(), i);
            }
        }
        &self.entries
    }

    /// The index of the entry with key `key`, or the index at which such
    /// an entry would have to stand.
    fn position(&self, key: &str) -> (r: (usize, bool))
        ensures
            r.0 <= self.pairs().len(),
            r.1 ==> r.0 < self.pairs().len() && self.pairs()[r.0 as int].0 == key@,
            !r.1 ==> !has_key(self.pairs(), key@),
            forall|i: int| 0 <= i < r.0 ==> lex_lt(#[trigger] self.pairs()[i].0, key@),
            forall|i: int|
                r.0 <= i < self.pairs().len() && !(i == r.0 && r.1) ==> lex_lt(
                    key@,
                    #[trigger] self.pairs()[i].0,
                ),
    {
        proof {
            use_type_invariant(self);
        }
        let wanted = chars_of(key);
        let mut i: usize = 0;
        while i < self.entries.len()
            invariant
                i <= self.entries.len(),
                wanted@ == key@,
                sorted_by_key(self.pairs()),
                forall|j: int| 0 <= j < i ==> lex_lt(#[trigger] self.pairs()[j].0, key@),
            decreases self.entries.len() - i,
        {
            let here = chars_of(self.entries[i].0.as_str());
            assert(here@ == self.pairs()[i as int].0);
            if !chars_lt(&here, &wanted) {
                let found = chars_eq(&here, &wanted);
                proof {
                    lemma_lex_total(here@, wanted@);
                    assert forall|j: int|
                        i <= j < self.pairs().len() && !(j == i && found) implies lex_lt(
                        key@,
                        #[trigger] self.pairs()[j].0,
                    ) by {
                        if j > i {
                            if !found {
                                lemma_lex_transitive(
                                    key@,
                                    self.pairs()[i as int].0,
                                    self.pairs()[j].0,
                                );
                            }
                        }
                    }
                    if !found {
                        assert forall|j: int| 0 <= j < self.pairs().len() implies (
                        #[trigger] self.pairs()[j]).0 != key@ by {
                            lemma_lex_irreflexive(key@);
                        }
                    }
                }
                return (i, found);
            }
            i += 1;
        }
        proof {
            assert forall|j: int| 0 <= j < self.pairs().len() implies (
            #[trigger] self.pairs()[j]).0 != key@ by {
                lemma_lex_irreflexive(key@);
            }
        }
        (i, false)
    }

    /// Whether the map holds an entry for `key`.
    pub fn contains_key(&self, key: &str) -> (r: bool)
        ensures
            r == self@.contains_key(key@),
    {
        let (_, found) = self.position(key);
        found
    }

    /// The value stored for `key`, if there is one.
    pub fn get(&self, key: &str) -> (r: Option<&V>)
        ensures
            match r {
                Some(v) => self@.contains_key(key@) && self@[key@] == v@,
                None => !self@.contains_key(key@),
            },
    {
        proof {
            use_type_invariant(self);
        }
        let (p, found) = self.position(key);
        if found {
            proof {
                lemma_map_of_entry(self.pairs(), p as int);
            }
            Some(&self.entries[p].1)
        } else {
            None
        }
    }

    /// Stores `value` for `key` and returns the value that `key` had before.
    pub fn insert(&mut self, key: String, value: V) -> (r: Option<V>)
        ensures
            final(self)@ == old(self)@.insert(key@, value@),
            match r {
                Some(v) => old(self)@.contains_key(key@) && old(self)@[key@] == v@,
                None => !old(self)@.contains_key(key@),
            },
    {
        proof {
            use_type_invariant(&*self);
        }
        let (p, found) = self.position(key.as_str());
        let ghost before = self.pairs();
        let ghost k = key@;
        let ghost val = value@;
        let mut entries: Vec<(String, V)> = Vec::new();
        std::mem::swap(&mut entries, &mut self.entries);
        assert(entries@.map_values(|e: (String, V)| (e.0@, e.1@)) == before);
        let mut previous: Option<V> = None;
        if found {
            let (_, v) = entries.remove(p);
            previous = Some(v);
            proof {
                lemma_map_of_entry(before, p as int);
            }
        }
        let ghost middle = entries@.map_values(|e: (String, V)| (e.0@, e.1@));
        entries.insert(p, (key, value));
        let ghost after = entries@.map_values(|e: (String, V)| (e.0@, e.1@));
        proof {
            if found {
                assert(middle =~= before.remove(p as int));
                lemma_map_of_remove(before, p as int);
            } else {
                assert(middle =~= before);
            }
            assert(after =~= middle.insert(p as int, (k, val)));
            assert forall|i: int, j: int| 0 <= i < j < after.len() implies lex_lt(
                #[trigger] after[i].0,
                #[trigger] after[j].0,
            ) by {
                let shift = if found { 1int } else { 0int };
                if i < p && j == p {
                    assert(after[i] == before[i]);
                } else if i == p {
                    assert(after[j] == before[j - 1 + shift]);
                } else if j < p {
                    assert(after[i] == before[i] && after[j] == before[j]);
                } else if i < p {
                    assert(after[i] == before[i] && after[j] == before[j - 1 + shift]);
                } else {
                    assert(after[i] == before[i - 1 + shift] && after[j] == before[j - 1 + shift]);
                }
            }
            lemma_map_of_insert(middle, p as int, k, val);
            if found {
                assert(map_of(before).remove(k).insert(k, val) =~= map_of(before).insert(k, val));
            }
        }
        self.entries = entries;
        assert(self.pairs() == after);
        previous
    }

    /// Takes the entry for `key` out of the map and returns its value.
    pub fn remove(&mut self, key: &str) -> (r: Option<V>)
        ensures
            final(self)@ == old(self)@.remove(key@),
            match r {
                Some(v) => old(self)@.contains_key(key@) && old(self)@[key@] == v@,
                None => !old(self)@.contains_key(key@),
            },
    {
        proof {
            use_type_invariant(&*self);
        }
        let (p, found) = self.position(key);
        if !found {
            assert(self@.remove(key@) =~= self@);
            return None;
        }
        let ghost before = self.pairs();
        let mut entries: Vec<(String, V)> = Vec::new();
        std::mem::swap(&mut entries, &mut self.entries);
        assert(entries@.map_values(|e: (String, V)| (e.0@, e.1@)) == before);
        let (_, v) = entries.remove(p);
        proof {
            lemma_map_of_entry(before, p as int);
            lemma_map_of_remove(before, p as int);
            assert(entries@.map_values(|e: (String, V)| (e.0@, e.1@)) =~= before.remove(p as int));
        }
        self.entries = entries;
        Some(v)
    }
}

impl<V: ViewClone> ViewClone for StringMap<V> {
    fn view_clone(&self) -> (r: Self)
        ensures
            r.pairs() == self.pairs(),
    {
        proof {
            use_type_invariant(self);
        }
        let mut entries: Vec<(String, V)> = Vec::new();
        let mut i: usize = 0;
        while i < self.entries.len()
            invariant
                i <= self.entries.len(),
                entries@.map_values(|e: (String, V)| (e.0@, e.1@)) == self.pairs().take(i as int),
            decreases self.entries.len() - i,
        {
            let key = self.entries[i].0.clone();
            let value = self.entries[i].1.view_clone();
            let ghost before = entries@;
            entries.push((key, value));
            assert(entries@ == before.push((key, value)));
            assert(self.pairs()[i as int] == (key@, value@));
            assert(entries@.map_values(|e: (String, V)| (e.0@, e.1@)) =~= before.map_values(
                |e: (String, V)| (e.0@, e.1@),
            ).push((key@, value@)));
            assert(entries@.map_values(|e: (String, V)| (e.0@, e.1@)) =~= self.pairs().take(i + 1));
            i += 1;
        }
        assert(self.pairs().take(i as int) =~= self.pairs());
        StringMap { entries }
    }
}

impl<V: ViewClone> Clone for StringMap<V> {
    fn clone(&self) -> (r: Self)
        ensures
            r@ == self@,
            r.pairs() == self.pairs(),
    {
        self.view_clone()
    }
}

} // verus!
