//! Deltas of the ledger state and their group structure.
use crate::types::{Output, UtxoPointer};
use crate::utxo_map::{entries_view, keys_distinct, lemma_entries_view_prefix, UtxoMap};
use vstd::prelude::*;

verus! {

/// What a delta denotes: the references it removes from the state, and the
/// references it adds, each with its output.
pub struct DiffView {
    pub spent: Map<UtxoPointer, Output>,
    pub created: Map<UtxoPointer, Output>,
}

/// The delta that changes nothing.
pub open spec fn empty_view() -> DiffView {
    DiffView { spent: Map::empty(), created: Map::empty() }
}

/// The delta that undoes `a`: what `a` removes it adds, and the reverse.
pub open spec fn inverse_view(a: DiffView) -> DiffView {
    DiffView { spent: a.created, created: a.spent }
}

/// Composition of `a` then `b`. A reference that `b` spends and `a` created
/// vanishes from both sides; otherwise it is spent (`b`'s output wins over
/// `a`'s). Then a reference that `b` creates and that is now spent vanishes
/// from both sides; otherwise it is created (`b`'s output wins).
pub open spec fn union_view(a: DiffView, b: DiffView) -> DiffView {
    let spent1 = a.spent.union_prefer_right(b.spent.remove_keys(a.created.dom()));
    let created1 = a.created.remove_keys(b.spent.dom());
    DiffView {
        spent: spent1.remove_keys(b.created.dom()),
        created: created1.union_prefer_right(b.created.remove_keys(spent1.dom())),
    }
}

/// No reference is both spent and created by `a`.
pub open spec fn is_disjoint(a: DiffView) -> bool {
    forall|k: UtxoPointer| !(#[trigger] a.spent.contains_key(k) && a.created.contains_key(k))
}

/// `a` and `b` never spend the same reference, nor create the same reference.
pub open spec fn independent(a: DiffView, b: DiffView) -> bool {
    &&& forall|k: UtxoPointer| !(#[trigger] a.spent.contains_key(k) && b.spent.contains_key(k))
    &&& forall|k: UtxoPointer| !(#[trigger] a.created.contains_key(k) && b.created.contains_key(k))
}

/// A delta of the ledger state: outputs removed and outputs added.
#[derive(Debug, PartialEq, Eq)]
pub struct Diff {
    /// The outputs that are spent.
    spent_outputs: UtxoMap,
    /// The outputs that are newly unspent.
    new_unspent_outputs: UtxoMap,
}

impl View for Diff {
    type V = DiffView;

    closed spec fn view(&self) -> DiffView {
        DiffView { spent: self.spent_outputs@, created: self.new_unspent_outputs@ }
    }
}

impl Diff {
    /// The delta that spends `spent_outputs` and creates `new_unspent_outputs`.
    pub fn new(spent_outputs: UtxoMap, new_unspent_outputs: UtxoMap) -> (r: Diff)
        ensures
            r@ == (DiffView { spent: spent_outputs@, created: new_unspent_outputs@ }),
    {
        Diff { spent_outputs, new_unspent_outputs }
    }

    /// The identity of composition: nothing spent, nothing created.
    pub fn empty() -> (r: Diff)
        ensures
            r@ == empty_view(),
    {
        Diff { spent_outputs: UtxoMap::new(), new_unspent_outputs: UtxoMap::new() }
    }

    /// The delta that undoes `self`.
    pub fn inverse(self) -> (r: Diff)
        ensures
            r@ == inverse_view(self@),
    {
        Diff { spent_outputs: self.new_unspent_outputs, new_unspent_outputs: self.spent_outputs }
    }

    /// The outputs that the delta spends.
    pub fn spent_outputs(&self) -> (r: &UtxoMap)
        ensures
            r@ == self@.spent,
    {
        &self.spent_outputs
    }

    /// The outputs that the delta creates.
    pub fn new_unspent_outputs(&self) -> (r: &UtxoMap)
        ensures
            r@ == self@.created,
    {
        &self.new_unspent_outputs
    }

    /// Adds to the spent side, as the composition with `other` does.
    fn spend(&mut self, k: UtxoPointer, v: Output)
        ensures
            final(self)@ == (if old(self)@.created.contains_key(k) {
                DiffView { spent: old(self)@.spent, created: old(self)@.created.remove(k) }
            } else {
                DiffView { spent: old(self)@.spent.insert(k, v), created: old(self)@.created }
            }),
    {
        let ghost c = self@.created;
        if self.new_unspent_outputs.remove(&k).is_none() {
            assert(c.remove(k) =~= c);
            self.spent_outputs.insert(k, v);
        }
    }

    /// Adds to the created side, as the composition with `other` does.
    fn create(&mut self, k: UtxoPointer, v: Output)
        ensures
            final(self)@ == (if old(self)@.spent.contains_key(k) {
                DiffView { spent: old(self)@.spent.remove(k), created: old(self)@.created }
            } else {
                DiffView { spent: old(self)@.spent, created: old(self)@.created.insert(k, v) }
            }),
    {
        let ghost c = self@.spent;
        if self.spent_outputs.remove(&k).is_none() {
            assert(c.remove(k) =~= c);
            self.new_unspent_outputs.insert(k, v);
        }
    }

    /// Composes `self` then `other`, cancelling each reference that one of
    /// them creates and the other spends. Returns `self`, for chaining.
    pub fn union(&mut self, other: Diff) -> (r: &mut Diff)
        ensures
            (*r)@ == union_view(old(self)@, other@),
            *final(self) == *final(r),
    {
        let ghost a = self@;
        let ghost b = other@;
        let Diff { spent_outputs: other_spent, new_unspent_outputs: other_created } = other;
        let n = other_spent.len();
        let ghost sb = other_spent.entry_seq();
        let mut i: usize = 0;
        while i < n
            invariant
                n == sb.len(),
                sb == other_spent.entry_seq(),
                keys_distinct(sb),
                other_spent@ == entries_view(sb),
                0 <= i <= n,
                self@.spent == a.spent.union_prefer_right(
                    entries_view(sb.take(i as int)).remove_keys(a.created.dom()),
                ),
                self@.created == a.created.remove_keys(entries_view(sb.take(i as int)).dom()),
            decreases n - i,
        {
            let (k, v) = other_spent.entry(i);
            proof {
                lemma_entries_view_prefix(sb, i as int);
            }
            let ghost p = entries_view(sb.take(i as int));
            self.spend(k, v);
            proof {
                let q = entries_view(sb.take(i + 1));
                assert(q == p.insert(k, v));
                assert(self@.spent =~= a.spent.union_prefer_right(q.remove_keys(a.created.dom())));
                assert(self@.created =~= a.created.remove_keys(q.dom()));
            }
            i = i + 1;
        }
        proof {
            assert(sb.take(n as int) =~= sb);
        }
        let ghost spent1 = self@.spent;
        let m = other_created.len();
        let ghost sc = other_created.entry_seq();
        let mut j: usize = 0;
        while j < m
            invariant
                m == sc.len(),
                sc == other_created.entry_seq(),
                keys_distinct(sc),
                other_created@ == entries_view(sc),
                0 <= j <= m,
                spent1 == a.spent.union_prefer_right(b.spent.remove_keys(a.created.dom())),
                self@.spent == spent1.remove_keys(entries_view(sc.take(j as int)).dom()),
                self@.created == a.created.remove_keys(b.spent.dom()).union_prefer_right(
                    entries_view(sc.take(j as int)).remove_keys(spent1.dom()),
                ),
            decreases m - j,
        {
            let (k, v) = other_created.entry(j);
            proof {
                lemma_entries_view_prefix(sc, j as int);
            }
            let ghost p = entries_view(sc.take(j as int));
            self.create(k, v);
            proof {
                let q = entries_view(sc.take(j + 1));
                assert(q == p.insert(k, v));
                assert(self@.spent =~= spent1.remove_keys(q.dom()));
                assert(self@.created =~= a.created.remove_keys(b.spent.dom()).union_prefer_right(
                    q.remove_keys(spent1.dom()),
                ));
            }
            j = j + 1;
        }
        proof {
            assert(sc.take(m as int) =~= sc);
        }
        self
    }
}

/// Composition is associative on deltas that pairwise never spend the same
/// reference twice nor create the same reference twice.
pub proof fn lemma_union_associative(a: Diff, b: Diff, c: Diff)
    requires
        independent(a@, b@),
        independent(b@, c@),
        independent(a@, c@),
    ensures
        union_view(union_view(a@, b@), c@) == union_view(a@, union_view(b@, c@)),
{
    let l = union_view(union_view(a@, b@), c@);
    let r = union_view(a@, union_view(b@, c@));
    assert(l.spent =~= r.spent);
    assert(l.created =~= r.created);
}

/// The empty delta is a right identity of composition.
pub proof fn lemma_union_right_identity(a: Diff)
    ensures
        union_view(a@, empty_view()) == a@,
{
    let r = union_view(a@, empty_view());
    assert(r.spent =~= a@.spent);
    assert(r.created =~= a@.created);
}

/// The empty delta is a left identity of composition on deltas that do not
/// both spend and create one reference.
pub proof fn lemma_union_left_identity(a: Diff)
    requires
        is_disjoint(a@),
    ensures
        union_view(empty_view(), a@) == a@,
{
    let r = union_view(empty_view(), a@);
    assert(r.spent =~= a@.spent);
    assert(r.created =~= a@.created);
}

/// Composing a delta with its inverse gives the empty delta.
pub proof fn lemma_union_inverse(a: Diff)
    ensures
        union_view(a@, inverse_view(a@)) == empty_view(),
{
    let r = union_view(a@, inverse_view(a@));
    assert(r.spent =~= Map::empty());
    assert(r.created =~= Map::empty());
}

/// Composition is commutative on deltas that do not both spend and create
/// one reference, and that never spend the same reference twice nor create
/// the same reference twice.
pub proof fn lemma_union_commutative(a: Diff, b: Diff)
    requires
        is_disjoint(a@),
        is_disjoint(b@),
        independent(a@, b@),
    ensures
        union_view(a@, b@) == union_view(b@, a@),
{
    let l = union_view(a@, b@);
    let r = union_view(b@, a@);
    assert(l.spent =~= r.spent);
    assert(l.created =~= r.created);
}

} // verus!
