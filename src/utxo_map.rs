//! A finite map from output references to outputs, kept as a list of
//! entries with distinct keys.
use crate::types::{pointer_eq, output_eq, Output, UtxoPointer};
use vstd::prelude::*;

verus! {

/// The map that a list of entries denotes: a later entry overrides an
/// earlier one with the same key.
pub open spec fn entries_view(s: Seq<(UtxoPointer, Output)>) -> Map<UtxoPointer, Output>
    decreases s.len(),
{
    if s.len() == 0 {
        Map::empty()
    } else {
        entries_view(s.drop_last()).insert(s.last().0, s.last().1)
    }
}

/// No two entries share a key.
pub open spec fn keys_distinct(s: Seq<(UtxoPointer, Output)>) -> bool {
    forall|i: int, j: int| 0 <= i < j < s.len() ==> #[trigger] s[i].0 != #[trigger] s[j].0
}

/// What a list of entries with distinct keys denotes, key by key.
pub proof fn lemma_entries_view(s: Seq<(UtxoPointer, Output)>)
    requires
        keys_distinct(s),
    ensures
        forall|k: UtxoPointer| #[trigger]
            entries_view(s).contains_key(k) <==> exists|i: int| 0 <= i < s.len() && s[i].0 == k,
        forall|i: int| 0 <= i < s.len() ==> entries_view(s)[#[trigger] s[i].0] == s[i].1,
        entries_view(s).dom().finite(),
        entries_view(s).len() == s.len(),
    decreases s.len(),
{
    if s.len() > 0 {
        let t = s.drop_last();
        lemma_entries_view(t);
        assert forall|k: UtxoPointer| #[trigger]
            entries_view(s).contains_key(k) <==> exists|i: int| 0 <= i < s.len() && s[i].0 == k by {
            if entries_view(s).contains_key(k) && k != s.last().0 {
                let i = choose|i: int| 0 <= i < t.len() && t[i].0 == k;
                assert(s[i] == t[i]);
            }
            if exists|i: int| 0 <= i < s.len() && s[i].0 == k {
                let i = choose|i: int| 0 <= i < s.len() && s[i].0 == k;
                if i < t.len() {
                    assert(t[i] == s[i]);
                }
            }
        }
        assert forall|i: int| 0 <= i < s.len() implies entries_view(s)[#[trigger] s[i].0]
            == s[i].1 by {
            if i < t.len() {
                assert(t[i] == s[i]);
                assert(s[i].0 != s[s.len() - 1].0);
            }
        }
        assert(!entries_view(t).contains_key(s.last().0)) by {
            if entries_view(t).contains_key(s.last().0) {
                let i = choose|i: int| 0 <= i < t.len() && t[i].0 == s.last().0;
                assert(t[i] == s[i]);
                assert(s[i].0 != s[s.len() - 1].0);
            }
        }
    }
}

/// The entries of the prefix of length `i + 1` denote those of the prefix of
/// length `i` with entry `i` added, under a key that the shorter prefix lacks.
pub proof fn lemma_entries_view_prefix(s: Seq<(UtxoPointer, Output)>, i: int)
    requires
        keys_distinct(s),
        0 <= i < s.len(),
    ensures
        entries_view(s.take(i + 1)) == entries_view(s.take(i)).insert(s[i].0, s[i].1),
        !entries_view(s.take(i)).contains_key(s[i].0),
{
    assert(s.take(i + 1).drop_last() =~= s.take(i));
    let t = s.take(i);
    lemma_entries_view(t);
    if entries_view(t).contains_key(s[i].0) {
        let j = choose|j: int| 0 <= j < t.len() && t[j].0 == s[i].0;
        assert(t[j] == s[j]);
    }
}

/// A map from references to outputs.
#[derive(Debug)]
pub struct UtxoMap {
    entries: Vec<(UtxoPointer, Output)>,
}

impl View for UtxoMap {
    type V = Map<UtxoPointer, Output>;

    closed spec fn view(&self) -> Map<UtxoPointer, Output> {
        entries_view(self.entries@)
    }
}

impl UtxoMap {
    #[verifier::type_invariant]
    spec fn inv(self) -> bool {
        keys_distinct(self.entries@)
    }

    /// The entries, in the order in which they were added.
    pub closed spec fn entry_seq(self) -> Seq<(UtxoPointer, Output)> {
        self.entries@
    }

    /// The empty map.
    pub fn new() -> (r: UtxoMap)
        ensures
            r@ == Map::<UtxoPointer, Output>::empty(),
            r.entry_seq().len() == 0,
    {
        UtxoMap { entries: Vec::new() }
    }

    /// Number of references held.
    pub fn len(&self) -> (r: usize)
        ensures
            r == self@.len(),
            r == self.entry_seq().len(),
            keys_distinct(self.entry_seq()),
            self@ == entries_view(self.entry_seq()),
    {
        proof {
            use_type_invariant(self);
            lemma_entries_view(self.entries@);
        }
        self.entries.len()
    }

    /// Entry `i` of the list of entries.
    pub fn entry(&self, i: usize) -> (r: (UtxoPointer, Output))
        requires
            i < self.entry_seq().len(),
        ensures
            r == self.entry_seq()[i as int],
    {
        self.entries[i]
    }

    /// Position of the entry with key `p`, if any.
    fn find(&self, p: &UtxoPointer) -> (r: Option<usize>)
        ensures
            match r {
                Some(i) => i < self.entries@.len() && self.entries@[i as int].0 == *p,
                None => forall|i: int| 0 <= i < self.entries@.len() ==> self.entries@[i].0 != *p,
            },
    {
        let mut i: usize = 0;
        while i < self.entries.len()
            invariant
                0 <= i <= self.entries@.len(),
                forall|j: int| 0 <= j < i ==> self.entries@[j].0 != *p,
            decreases self.entries@.len() - i,
        {
            if pointer_eq(&self.entries[i].0, p) {
                return Some(i);
            }
            i = i + 1;
        }
        None
    }

    /// The output stored under `p`, if any.
    pub fn get(&self, p: &UtxoPointer) -> (r: Option<Output>)
        ensures
            r == (if self@.contains_key(*p) { Some(self@[*p]) } else { None::<Output> }),
    {
        proof {
            use_type_invariant(self);
            lemma_entries_view(self.entries@);
        }
        match self.find(p) {
            Some(i) => Some(self.entries[i].1),
            None => None,
        }
    }

    /// Whether `p` is a key of the map.
    pub fn contains_key(&self, p: &UtxoPointer) -> (r: bool)
        ensures
            r == self@.contains_key(*p),
    {
        proof {
            use_type_invariant(self);
            lemma_entries_view(self.entries@);
        }
        self.find(p).is_some()
    }

    /// Stores `o` under `p` and returns the output that was there before.
    pub fn insert(&mut self, p: UtxoPointer, o: Output) -> (r: Option<Output>)
        ensures
            final(self)@ == old(self)@.insert(p, o),
            r == (if old(self)@.contains_key(p) { Some(old(self)@[p]) } else { None::<Output> }),
    {
        proof {
            use_type_invariant(&*self);
            lemma_entries_view(self.entries@);
        }
        let ghost m = self@;
        let mut entries: Vec<(UtxoPointer, Output)> = Vec::new();
        std::mem::swap(&mut entries, &mut self.entries);
        let ghost s = entries@;
        let found = {
            let tmp = UtxoMap { entries };
            let f = tmp.find(&p);
            entries = tmp.entries;
            f
        };
        match found {
            Some(i) => {
                let prev = entries[i].1;
                entries.set(i, (p, o));
                proof {
                    let s2 = entries@;
                    assert(s2 =~= s.update(i as int, (p, o)));
                    assert(keys_distinct(s2)) by {
                        assert forall|a: int, b: int| 0 <= a < b < s2.len() implies #[trigger] s2[a].0
                            != #[trigger] s2[b].0 by {
                            assert(s[a].0 != s[b].0);
                        }
                    }
                    lemma_entries_view(s2);
                    assert forall|k: UtxoPointer| #[trigger] entries_view(s2).contains_key(k) == m.insert(p, o).contains_key(k) by {
                        if m.contains_key(k) {
                            let j = choose|j: int| 0 <= j < s.len() && s[j].0 == k;
                            assert(s2[j].0 == k);
                        }
                        if entries_view(s2).contains_key(k) {
                            let j = choose|j: int| 0 <= j < s2.len() && s2[j].0 == k;
                            if j != i {
                                assert(s[j].0 == k);
                            }
                        }
                    }
                    assert forall|k: UtxoPointer| #[trigger] entries_view(s2).contains_key(k) implies entries_view(s2)[k] == m.insert(p, o)[k] by {
                        let j = choose|j: int| 0 <= j < s2.len() && s2[j].0 == k;
                        if j != i {
                            assert(s[j] == s2[j]);
                        }
                    }
                    assert(entries_view(s2) =~= m.insert(p, o));
                }
                self.entries = entries;
                Some(prev)
            },
            None => {
                entries.push((p, o));
                proof {
                    let s2 = entries@;
                    assert(s2.drop_last() =~= s);
                    assert(keys_distinct(s2)) by {
                        assert forall|a: int, b: int| 0 <= a < b < s2.len() implies #[trigger] s2[a].0
                            != #[trigger] s2[b].0 by {
                            if b < s.len() {
                                assert(s[a].0 != s[b].0);
                            } else {
                                assert(s[a].0 != p);
                            }
                        }
                    }
                    assert(!m.contains_key(p)) by {
                        if m.contains_key(p) {
                            let j = choose|j: int| 0 <= j < s.len() && s[j].0 == p;
                        }
                    }
                }
                self.entries = entries;
                None
            },
        }
    }

    /// Removes the entry under `p` and returns its output, if there was one.
    pub fn remove(&mut self, p: &UtxoPointer) -> (r: Option<Output>)
        ensures
            final(self)@ == old(self)@.remove(*p),
            r == (if old(self)@.contains_key(*p) { Some(old(self)@[*p]) } else { None::<Output> }),
    {
        proof {
            use_type_invariant(&*self);
            lemma_entries_view(self.entries@);
        }
        let ghost m = self@;
        match self.find(p) {
            Some(i) => {
                let mut entries: Vec<(UtxoPointer, Output)> = Vec::new();
                std::mem::swap(&mut entries, &mut self.entries);
                let ghost s = entries@;
                let (_, prev) = entries.remove(i);
                proof {
                    let s2 = entries@;
                    assert(s2 =~= s.remove(i as int));
                    assert(keys_distinct(s2)) by {
                        assert forall|a: int, b: int| 0 <= a < b < s2.len() implies #[trigger] s2[a].0
                            != #[trigger] s2[b].0 by {
                            if b < i {
                                assert(s[a].0 != s[b].0);
                            } else if a < i {
                                assert(s[a].0 != s[b + 1].0);
                            } else {
                                assert(s[a + 1].0 != s[b + 1].0);
                            }
                        }
                    }
                    lemma_entries_view(s2);
                    assert forall|k: UtxoPointer| #[trigger] entries_view(s2).contains_key(k) == m.remove(*p).contains_key(k) by {
                        if m.contains_key(k) && k != *p {
                            let j = choose|j: int| 0 <= j < s.len() && s[j].0 == k;
                            if j < i {
                                assert(s2[j].0 == k);
                            } else {
                                assert(s2[j - 1].0 == k);
                            }
                        }
                        if entries_view(s2).contains_key(k) {
                            let j = choose|j: int| 0 <= j < s2.len() && s2[j].0 == k;
                            if j < i {
                                assert(s[j].0 == k);
                                assert(s[j].0 != s[i as int].0);
                            } else {
                                assert(s[j + 1].0 == k);
                                assert(s[j + 1].0 != s[i as int].0);
                            }
                        }
                    }
                    assert forall|k: UtxoPointer| #[trigger] entries_view(s2).contains_key(k) implies entries_view(s2)[k] == m.remove(*p)[k] by {
                        let j = choose|j: int| 0 <= j < s2.len() && s2[j].0 == k;
                        if j < i {
                            assert(s[j] == s2[j]);
                        } else {
                            assert(s[j + 1] == s2[j]);
                        }
                    }
                    assert(entries_view(s2) =~= m.remove(*p));
                }
                self.entries = entries;
                Some(prev)
            },
            None => {
                proof {
                    assert(!m.contains_key(*p)) by {
                        if m.contains_key(*p) {
                            let j = choose|j: int| 0 <= j < self.entries@.len() && self.entries@[j].0 == *p;
                        }
                    }
                    assert(m.remove(*p) =~= m);
                }
                None
            },
        }
    }
}

impl PartialEq for UtxoMap {
    /// Two maps are equal when they hold the same references with the same
    /// outputs, whatever the order of their entries.
    fn eq(&self, other: &UtxoMap) -> (r: bool) {
        proof {
            use_type_invariant(self);
            use_type_invariant(other);
            lemma_entries_view(self.entries@);
            lemma_entries_view(other.entries@);
        }
        if self.entries.len() != other.entries.len() {
            return false;
        }
        let ghost s = self.entries@;
        let mut i: usize = 0;
        while i < self.entries.len()
            invariant
                s == self.entries@,
                keys_distinct(s),
                keys_distinct(other.entries@),
                s.len() == other.entries@.len(),
                0 <= i <= s.len(),
                forall|j: int|
                    0 <= j < i ==> other@.contains_key(#[trigger] s[j].0) && other@[s[j].0]
                        == s[j].1,
            decreases s.len() - i,
        {
            let (k, v) = self.entries[i];
            match other.get(&k) {
                Some(w) => {
                    if !output_eq(&v, &w) {
                        proof {
                            lemma_entries_view(s);
                            assert(self@[s[i as int].0] == v);
                        }
                        return false;
                    }
                    assert(s[i as int].0 == k && s[i as int].1 == v);
                },
                None => {
                    proof {
                        lemma_entries_view(s);
                    }
                    return false;
                },
            }
            i = i + 1;
        }
        proof {
            lemma_entries_view(s);
            lemma_entries_view(other.entries@);
            assert(self@.dom().subset_of(other@.dom())) by {
                assert forall|k: UtxoPointer| self@.dom().contains(k) implies other@.dom().contains(k) by {
                    assert(self@.contains_key(k));
                    let j = choose|j: int| 0 <= j < s.len() && s[j].0 == k;
                    assert(other@.contains_key(s[j].0));
                }
            }
            vstd::set_lib::lemma_subset_equality(self@.dom(), other@.dom());
            assert forall|k: UtxoPointer| #[trigger] self@.contains_key(k) implies self@[k] == other@[k] by {
                let j = choose|j: int| 0 <= j < s.len() && s[j].0 == k;
                assert(other@.contains_key(s[j].0));
            }
            assert(self@ =~= other@);
        }
        true
    }
}

impl vstd::std_specs::cmp::PartialEqSpecImpl for UtxoMap {
    open spec fn obeys_eq_spec() -> bool {
        true
    }

    open spec fn eq_spec(&self, other: &UtxoMap) -> bool {
        self@ == other@
    }
}

impl Eq for UtxoMap {

}

} // verus!
