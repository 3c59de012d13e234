//! A map keyed by strings that keeps its keys in ascending order, as a
//! `BTreeMap<String, V>` does.

use vstd::prelude::*;
use crate::text::chars_of;

verus! {

/// Strict lexicographic order on character sequences, comparing code points
/// (the order of `String`'s `Ord`).
pub open spec fn lex_lt(a: Seq<char>, b: Seq<char>) -> bool
    decreases a.len(),
{
    if a.len() == 0 {
        b.len() > 0
    } else if b.len() == 0 {
        false
    } else if (a[0] as u32) < (b[0] as u32) {
        true
    } else if a[0] == b[0] {
        lex_lt(a.drop_first(), b.drop_first())
    } else {
        false
    }
}

/// No sequence precedes itself.
pub proof fn lemma_lex_irreflexive(a: Seq<char>)
    ensures
        !lex_lt(a, a),
    decreases a.len(),
{
    if a.len() > 0 {
        lemma_lex_irreflexive(a.drop_first());
    }
}

/// Two different sequences are ordered one way or the other, never both.
pub proof fn lemma_lex_total(a: Seq<char>, b: Seq<char>)
    ensures
        a != b ==> (lex_lt(a, b) || lex_lt(b, a)),
        !(lex_lt(a, b) && lex_lt(b, a)),
    decreases a.len(),
{
    if a.len() > 0 && b.len() > 0 {
        lemma_lex_total(a.drop_first(), b.drop_first());
        if a[0] == b[0] && a.drop_first() == b.drop_first() {
            assert(a =~= seq![a[0]] + a.drop_first());
            assert(b =~= seq![b[0]] + b.drop_first());
        }
        if a[0] != b[0] {
            vstd::utf8::char_u32_cast(a[0], a[0] as u32);
            vstd::utf8::char_u32_cast(b[0], b[0] as u32);
            assert((a[0] as u32) != (b[0] as u32));
        }
    } else if a.len() == 0 && b.len() == 0 {
        assert(a =~= b);
    }
}

/// The order is transitive.
pub proof fn lemma_lex_transitive(a: Seq<char>, b: Seq<char>, c: Seq<char>)
    requires
        lex_lt(a, b),
        lex_lt(b, c),
    ensures
        lex_lt(a, c),
    decreases a.len(),
{
    if a.len() > 0 && b.len() > 0 && c.len() > 0 {
        if a[0] == b[0] && b[0] == c[0] {
            lemma_lex_transitive(a.drop_first(), b.drop_first(), c.drop_first());
        }
    }
}

/// Three-way comparison of two character sequences: -1, 0 or 1.
pub fn lex_order(a: &Vec<char>, b: &Vec<char>) -> (r: i8)
    ensures
        r == -1 <==> lex_lt(a@, b@),
        r == 0 <==> a@ == b@,
        r == 1 <==> lex_lt(b@, a@),
        r == -1 || r == 0 || r == 1,
{
    let mut i: usize = 0;
    assert(a@.skip(0) =~= a@);
    assert(b@.skip(0) =~= b@);
    while i < a.len() && i < b.len() && a[i] == b[i]
        invariant
            i <= a.len(),
            i <= b.len(),
            a@.take(i as int) == b@.take(i as int),
            lex_lt(a@, b@) == lex_lt(a@.skip(i as int), b@.skip(i as int)),
            lex_lt(b@, a@) == lex_lt(b@.skip(i as int), a@.skip(i as int)),
        decreases a.len() - i,
    {
        assert(a@.skip(i as int).drop_first() =~= a@.skip(i + 1));
        assert(b@.skip(i as int).drop_first() =~= b@.skip(i + 1));
        assert(a@.take(i + 1) =~= a@.take(i as int).push(a@[i as int]));
        assert(b@.take(i + 1) =~= b@.take(i as int).push(b@[i as int]));
        i = i + 1;
    }
    proof {
        lemma_lex_irreflexive(a@);
        lemma_lex_total(a@, b@);
    }
    if i == a.len() && i == b.len() {
        assert(a@ =~= a@.take(i as int));
        assert(b@ =~= b@.take(i as int));
        0
    } else if i == a.len() {
        assert(a@ != b@) by {
            assert(a@.len() != b@.len());
        }
        -1
    } else if i == b.len() {
        assert(a@ != b@) by {
            assert(a@.len() != b@.len());
        }
        1
    } else {
        assert(a@ != b@) by {
            assert(a@[i as int] != b@[i as int]);
        }
        if (a[i] as u32) < (b[i] as u32) {
            -1
        } else {
            1
        }
    }
}

/// A map from strings to `V` whose entries are kept with strictly ascending keys.
#[derive(Debug)]
pub struct StrMap<V> {
    entries: Vec<(String, V)>,
}

impl<V> StrMap<V> {
    /// The keys, in ascending order.
    pub closed spec fn keys(&self) -> Seq<Seq<char>> {
        self.entries@.map_values(|e: (String, V)| e.0@)
    }

    /// The entries, in ascending order of their keys.
    pub closed spec fn entry_seq(&self) -> Seq<(String, V)> {
        self.entries@
    }

    #[verifier::type_invariant]
    spec fn sorted(&self) -> bool {
        forall|i: int, j: int|
            0 <= i < j < self.entries@.len() ==> lex_lt(
                #[trigger] self.entries@[i].0@,
                #[trigger] self.entries@[j].0@,
            )
    }

    /// Whether some entry has key `k`.
    spec fn has_key(&self, k: Seq<char>) -> bool {
        exists|i: int| 0 <= i < self.entries@.len() && self.entries@[i].0@ == k
    }

    /// The position of an entry with key `k`.
    spec fn key_pos(&self, k: Seq<char>) -> int {
        choose|i: int| 0 <= i < self.entries@.len() && self.entries@[i].0@ == k
    }

    /// What the map holds.
    pub closed spec fn as_map(&self) -> Map<Seq<char>, V> {
        Map::new(|k: Seq<char>| self.has_key(k), |k: Seq<char>| self.entries@[self.key_pos(k)].1)
    }

    /// The keys ascend strictly; the map holds exactly the entries, each key once.
    proof fn lemma_shape(&self)
        requires
            self.sorted(),
        ensures
            forall|i: int, j: int|
                0 <= i < j < self.keys().len() ==> lex_lt(#[trigger] self.keys()[i], #[trigger] self.keys()[j]),
            self.keys().len() == self.entry_seq().len(),
            forall|i: int| 0 <= i < self.keys().len() ==> #[trigger] self.keys()[i] == self.entry_seq()[i].0@,
            forall|k: Seq<char>| #[trigger] self@.contains_key(k) <==> self.keys().contains(k),
            forall|i: int|
                0 <= i < self.keys().len() ==> #[trigger] self@[self.keys()[i]] == self.entry_seq()[i].1,
            self@.dom() == self.keys().to_set(),
            self.keys().no_duplicates(),
            self@.dom().finite(),
            self@.dom().len() == self.keys().len(),
    {
        self.lemma_lookup();
        assert forall|k: Seq<char>| #[trigger] self@.contains_key(k) <==> self.keys().contains(k) by {
            if self@.contains_key(k) {
                let i = choose|i: int| 0 <= i < self.entries@.len() && self.entries@[i].0@ == k;
                assert(self.keys()[i] == k);
            }
            if self.keys().contains(k) {
                let i = choose|i: int| 0 <= i < self.keys().len() && self.keys()[i] == k;
                assert(self.entries@[i].0@ == k);
            }
        }
        assert forall|i: int, j: int|
            0 <= i < self.keys().len() && 0 <= j < self.keys().len() && i != j implies self.keys()[i]
            != self.keys()[j] by {
            lemma_lex_irreflexive(self.keys()[i]);
            if i < j {
                assert(lex_lt(self.entries@[i].0@, self.entries@[j].0@));
            } else {
                assert(lex_lt(self.entries@[j].0@, self.entries@[i].0@));
            }
        }
        assert(self@.dom() =~= self.keys().to_set());
        self.keys().unique_seq_to_set();
    }

    /// Looking up the key of entry `i` yields entry `i`'s value.
    proof fn lemma_lookup(&self)
        requires
            self.sorted(),
        ensures
            forall|n: int|
                0 <= n < self.entries@.len() ==> #[trigger] self@[self.entries@[n].0@] == self.entries@[n].1
                    && self@.contains_key(self.entries@[n].0@),
    {
        assert forall|n: int| 0 <= n < self.entries@.len() implies #[trigger] self@[self.entries@[n].0@]
            == self.entries@[n].1 && self@.contains_key(self.entries@[n].0@) by {
            let k = self.entries@[n].0@;
            assert(0 <= n < self.entries@.len() && self.entries@[n].0@ == k);
            assert(self@.contains_key(k));
            let j = self.key_pos(k);
            if j != n {
                lemma_lex_irreflexive(k);
                if n < j {
                    assert(lex_lt(self.entries@[n].0@, self.entries@[j].0@));
                } else {
                    assert(lex_lt(self.entries@[j].0@, self.entries@[n].0@));
                }
            }
            assert(self.as_map().dom().contains(k));
            assert(self.as_map()[k] == self.entries@[j].1);
            assert(self@[k] == self.entries@[j].1);
        }
    }

    /// An empty map.
    pub fn new() -> (m: Self)
        ensures
            m@ == Map::<Seq<char>, V>::empty(),
            m.keys() == Seq::<Seq<char>>::empty(),
    {
        let m = StrMap { entries: Vec::new() };
        assert(m@ =~= Map::<Seq<char>, V>::empty());
        assert(m.keys() =~= Seq::<Seq<char>>::empty());
        m
    }

    /// The position of `k` among the keys, or where it would be inserted.
    fn locate(&self, k: &Vec<char>) -> (r: (usize, bool))
        ensures
            r.0 <= self.entries@.len(),
            forall|j: int| 0 <= j < r.0 ==> lex_lt(#[trigger] self.entries@[j].0@, k@),
            r.1 ==> r.0 < self.entries@.len() && self.entries@[r.0 as int].0@ == k@,
            !r.1 ==> forall|j: int|
                r.0 <= j < self.entries@.len() ==> lex_lt(k@, #[trigger] self.entries@[j].0@),
    {
        proof {
            use_type_invariant(self);
        }
        let mut i: usize = 0;
        while i < self.entries.len()
            invariant
                self.sorted(),
                i <= self.entries@.len(),
                forall|j: int| 0 <= j < i ==> lex_lt(#[trigger] self.entries@[j].0@, k@),
            decreases self.entries@.len() - i,
        {
            let key = chars_of(self.entries[i].0.as_str());
            let o = lex_order(&key, k);
            if o == 0 {
                return (i, true);
            }
            if o == 1 {
                assert forall|j: int| i <= j < self.entries@.len() implies lex_lt(
                    k@,
                    #[trigger] self.entries@[j].0@,
                ) by {
                    if j > i {
                        lemma_lex_transitive(k@, self.entries@[i as int].0@, self.entries@[j].0@);
                    }
                }
                return (i, false);
            }
            i = i + 1;
        }
        (i, false)
    }

    /// The value stored under `k`.
    pub fn get(&self, k: &str) -> (r: Option<&V>)
        ensures
            match r {
                Some(v) => self@.contains_key(k@) && *v == self@[k@],
                None => !self@.contains_key(k@),
            },
    {
        proof {
            use_type_invariant(self);
            self.lemma_lookup();
        }
        let kv = chars_of(k);
        let (i, found) = self.locate(&kv);
        if found {
            Some(&self.entries[i].1)
        } else {
            proof {
                if self@.contains_key(k@) {
                    let j = choose|j: int| 0 <= j < self.entries@.len() && self.entries@[j].0@ == k@;
                    lemma_lex_irreflexive(k@);
                    if j >= i {
                        assert(lex_lt(k@, self.entries@[j].0@));
                    } else {
                        assert(lex_lt(self.entries@[j].0@, k@));
                    }
                }
            }
            None
        }
    }

    /// Whether `k` is a key.
    pub fn contains_key(&self, k: &str) -> (r: bool)
        ensures
            r == self@.contains_key(k@),
    {
        self.get(k).is_some()
    }

    /// The number of entries.
    pub fn len(&self) -> (r: usize)
        ensures
            r == self@.len(),
            r == self.keys().len(),
    {
        proof {
            use_type_invariant(self);
            self.lemma_shape();
        }
        self.entries.len()
    }

    /// The entries, in ascending order of their keys.
    pub fn entries(&self) -> (r: &Vec<(String, V)>)
        ensures
            r@ == self.entry_seq(),
    {
        &self.entries
    }

    /// Stores `v` under `k`, replacing any earlier value.
    pub fn insert(&mut self, k: String, v: V)
        ensures
            final(self)@ == old(self)@.insert(k@, v),
    {
        proof {
            use_type_invariant(&*self);
            self.lemma_lookup();
        }
        let kv = chars_of(k.as_str());
        let (i, found) = self.locate(&kv);
        let ghost old_entries = self.entries@;
        let ghost old_map = self@;
        if found {
            let mut entries: Vec<(String, V)> = Vec::new();
            std::mem::swap(&mut entries, &mut self.entries);
            entries.set(i, (k, v));
            self.entries = entries;
        } else {
            let mut entries: Vec<(String, V)> = Vec::new();
            std::mem::swap(&mut entries, &mut self.entries);
            entries.insert(i, (k, v));
            assert forall|a: int, b: int| 0 <= a < b < entries@.len() implies lex_lt(
                #[trigger] entries@[a].0@,
                #[trigger] entries@[b].0@,
            ) by {
                if b == i {
                    assert(entries@[a] == old_entries[a]);
                } else if a == i {
                    assert(entries@[b] == old_entries[b - 1]);
                } else if b < i {
                    assert(entries@[a] == old_entries[a]);
                    assert(entries@[b] == old_entries[b]);
                } else if a < i {
                    assert(entries@[a] == old_entries[a]);
                    assert(entries@[b] == old_entries[b - 1]);
                    lemma_lex_transitive(old_entries[a].0@, kv@, old_entries[b - 1].0@);
                } else {
                    assert(entries@[a] == old_entries[a - 1]);
                    assert(entries@[b] == old_entries[b - 1]);
                }
            }
            self.entries = entries;
        }
        proof {
            self.lemma_lookup();
            let new_map = self@;
            assert forall|q: Seq<char>| #[trigger] new_map.contains_key(q) <==> old_map.insert(kv@, v).contains_key(q) by {
                if new_map.contains_key(q) {
                    let j = choose|j: int| 0 <= j < self.entries@.len() && self.entries@[j].0@ == q;
                    if q != kv@ {
                        if found {
                            assert(old_entries[j].0@ == q);
                        } else if j < i {
                            assert(old_entries[j].0@ == q);
                        } else {
                            assert(old_entries[j - 1].0@ == q);
                        }
                    }
                }
                if old_map.contains_key(q) && q != kv@ {
                    let j = choose|j: int| 0 <= j < old_entries.len() && old_entries[j].0@ == q;
                    if found || j < i {
                        assert(self.entries@[j].0@ == q);
                    } else {
                        assert(self.entries@[j + 1].0@ == q);
                    }
                }
                if q == kv@ {
                    assert(self.entries@[i as int].0@ == q);
                }
            }
            assert forall|q: Seq<char>| #[trigger] new_map.contains_key(q) implies new_map[q]
                == old_map.insert(kv@, v)[q] by {
                if q == kv@ {
                    assert(self.entries@[i as int].0@ == q);
                } else {
                    let j = choose|j: int| 0 <= j < old_entries.len() && old_entries[j].0@ == q;
                    if found || j < i {
                        assert(self.entries@[j] == old_entries[j]);
                    } else {
                        assert(self.entries@[j + 1] == old_entries[j]);
                    }
                }
            }
            assert(new_map =~= old_map.insert(kv@, v));
        }
    }

    /// Removes the entry for `k`, if any.
    pub fn remove(&mut self, k: &str)
        ensures
            final(self)@ == old(self)@.remove(k@),
    {
        proof {
            use_type_invariant(&*self);
            self.lemma_lookup();
        }
        let kv = chars_of(k);
        let (i, found) = self.locate(&kv);
        let ghost old_entries = self.entries@;
        let ghost old_map = self@;
        if found {
            let mut entries: Vec<(String, V)> = Vec::new();
            std::mem::swap(&mut entries, &mut self.entries);
            let _ = entries.remove(i);
            assert forall|a: int, b: int| 0 <= a < b < entries@.len() implies lex_lt(
                #[trigger] entries@[a].0@,
                #[trigger] entries@[b].0@,
            ) by {
                let a0 = if a < i { a } else { a + 1 };
                let b0 = if b < i { b } else { b + 1 };
                assert(entries@[a] == old_entries[a0]);
                assert(entries@[b] == old_entries[b0]);
            }
            self.entries = entries;
        }
        proof {
            self.lemma_lookup();
            let new_map = self@;
            assert forall|q: Seq<char>| #[trigger] new_map.contains_key(q) <==> old_map.remove(kv@).contains_key(q) by {
                if new_map.contains_key(q) {
                    let j = self.key_pos(q);
                    if found {
                        let j0 = if j < i { j } else { j + 1 };
                        assert(old_entries[j0].0@ == q);
                        lemma_lex_irreflexive(q);
                        if j0 < i {
                            assert(lex_lt(old_entries[j0].0@, old_entries[i as int].0@));
                        } else {
                            assert(lex_lt(old_entries[i as int].0@, old_entries[j0].0@));
                        }
                    } else {
                        assert(old_entries[j].0@ == q);
                        lemma_lex_irreflexive(q);
                        if j < i {
                            assert(lex_lt(q, kv@));
                        } else {
                            assert(lex_lt(kv@, q));
                        }
                    }
                }
                if old_map.contains_key(q) && q != kv@ {
                    let j = choose|j: int| 0 <= j < old_entries.len() && old_entries[j].0@ == q;
                    if !found || j < i {
                        assert(self.entries@[j].0@ == q);
                    } else {
                        assert(j != i);
                        assert(self.entries@[j - 1].0@ == q);
                    }
                }
            }
            assert forall|q: Seq<char>| #[trigger] new_map.contains_key(q) implies new_map[q]
                == old_map.remove(kv@)[q] by {
                let j = choose|j: int| 0 <= j < old_entries.len() && old_entries[j].0@ == q;
                if !found || j < i {
                    assert(self.entries@[j] == old_entries[j]);
                } else {
                    assert(self.entries@[j - 1] == old_entries[j]);
                }
            }
            assert(new_map =~= old_map.remove(kv@));
        }
    }
}

impl<V: Clone> Clone for StrMap<V> {
    /// A copy with the same keys, each value cloned.
    fn clone(&self) -> (r: Self)
        ensures
            r.keys() == self.keys(),
            forall|i: int|
                0 <= i < self.entry_seq().len() ==> cloned::<V>(
                    self.entry_seq()[i].1,
                    #[trigger] r.entry_seq()[i].1,
                ),
    {
        proof {
            use_type_invariant(self);
        }
        let mut entries: Vec<(String, V)> = Vec::new();
        let mut i: usize = 0;
        while i < self.entries.len()
            invariant
                self.sorted(),
                i <= self.entries@.len(),
                entries@.len() == i,
                forall|j: int| 0 <= j < i ==> #[trigger] entries@[j].0@ == self.entries@[j].0@,
                forall|j: int| 0 <= j < i ==> cloned::<V>(self.entries@[j].1, #[trigger] entries@[j].1),
            decreases self.entries@.len() - i,
        {
            let k = self.entries[i].0.clone();
            let v = self.entries[i].1.clone();
            entries.push((k, v));
            i = i + 1;
        }
        let r = StrMap { entries };
        assert(r.keys() =~= self.keys());
        r
    }
}

impl<V> View for StrMap<V> {
    type V = Map<Seq<char>, V>;

    closed spec fn view(&self) -> Map<Seq<char>, V> {
        self.as_map()
    }
}

} // verus!
