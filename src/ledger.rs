//! The ledger state, transaction validation and delta application.
use crate::diff::{Diff, DiffView};
use crate::types::{Error, Output, SignedTransaction, TransactionId, UtxoPointer, Value, Witness};
use crate::utxo_map::{
    entries_view, keys_distinct, lemma_entries_view, lemma_entries_view_prefix, UtxoMap,
};
use vstd::prelude::*;

verus! {

/// Largest value of a single output.
pub open spec fn max_value() -> int {
    0xFFFF_FFFF_FFFF_FFFF
}

/// Resolution of the first `n` inputs against `state`, in order, stopping
/// at the first input that does not resolve, whose signature check failed,
/// or that was already spent by an earlier input. On success, the map of
/// the spent references to their outputs.
pub open spec fn spend_scan(
    state: Map<UtxoPointer, Output>,
    inputs: Seq<UtxoPointer>,
    witnesses: Seq<Witness>,
    checks: Seq<bool>,
    n: int,
) -> Result<Map<UtxoPointer, Output>, Error>
    decreases n,
{
    if n <= 0 {
        Ok(Map::empty())
    } else {
        match spend_scan(state, inputs, witnesses, checks, n - 1) {
            Err(e) => Err(e),
            Ok(m) => {
                let p = inputs[n - 1];
                if !state.contains_key(p) {
                    Err(Error::InputDoesNotResolve(p))
                } else if !checks[n - 1] {
                    Err(Error::InvalidSignature(p, state[p], witnesses[n - 1]))
                } else if m.contains_key(p) {
                    Err(Error::DoubleSpend(p, m[p]))
                } else {
                    Ok(m.insert(p, state[p]))
                }
            },
        }
    }
}

/// The references that the first `n` outputs of transaction `id` receive:
/// output `i` is referenced by `(id, i, its value)`.
pub open spec fn created_view(id: TransactionId, outputs: Seq<Output>, n: int) -> Map<
    UtxoPointer,
    Output,
>
    decreases n,
{
    if n <= 0 {
        Map::empty()
    } else {
        created_view(id, outputs, n - 1).insert(
            UtxoPointer { transaction_id: id, output_index: (n - 1) as u32, value: outputs[n - 1].1 },
            outputs[n - 1],
        )
    }
}

/// Total value of the outputs that the first `n` inputs resolve to.
pub open spec fn input_sum(state: Map<UtxoPointer, Output>, inputs: Seq<UtxoPointer>, n: int) -> int
    decreases n,
{
    if n <= 0 {
        0
    } else {
        input_sum(state, inputs, n - 1) + state[inputs[n - 1]].1.0
    }
}

/// Total value of the first `n` outputs.
pub open spec fn output_sum(outputs: Seq<Output>, n: int) -> int
    decreases n,
{
    if n <= 0 {
        0
    } else {
        output_sum(outputs, n - 1) + outputs[n - 1].1.0
    }
}

/// The outcome of validating `tx`, whose identifier is `id`, against `state`,
/// where `checks[i]` tells whether witness `i` verifies against the owner of
/// the output that input `i` resolves to.
pub open spec fn validation(
    state: Map<UtxoPointer, Output>,
    tx: SignedTransaction,
    id: TransactionId,
    checks: Seq<bool>,
) -> Result<DiffView, Error> {
    let inputs = tx.transaction.inputs@;
    let outputs = tx.transaction.outputs@;
    let witnesses = tx.witnesses@;
    if inputs.len() > witnesses.len() {
        Err(Error::NotEnoughSignatures(inputs.len() as usize, witnesses.len() as usize))
    } else {
        match spend_scan(state, inputs, witnesses, checks, inputs.len() as int) {
            Err(e) => Err(e),
            Ok(spent) => {
                let s = input_sum(state, inputs, inputs.len() as int);
                let c = output_sum(outputs, outputs.len() as int);
                if s != c {
                    Err(Error::TransactionSumIsNonZero(s as u128, c as u128))
                } else {
                    Ok(DiffView { spent, created: created_view(id, outputs, outputs.len() as int) })
                }
            },
        }
    }
}

/// Some reference that `d` spends is absent from `state`.
pub open spec fn spends_missing(state: Map<UtxoPointer, Output>, d: DiffView) -> bool {
    exists|k: UtxoPointer| #[trigger] d.spent.contains_key(k) && !state.contains_key(k)
}

/// `d` creates `k`, which `state` holds and `d` does not spend.
pub open spec fn creates_present(state: Map<UtxoPointer, Output>, d: DiffView, k: UtxoPointer) -> bool {
    d.created.contains_key(k) && state.contains_key(k) && !d.spent.contains_key(k)
}

/// The state after applying `d`: its spent references removed, its created
/// references added.
pub open spec fn applied(state: Map<UtxoPointer, Output>, d: DiffView) -> Map<UtxoPointer, Output> {
    state.remove_keys(d.spent.dom()).union_prefer_right(d.created)
}

proof fn lemma_scan_err(
    state: Map<UtxoPointer, Output>,
    inputs: Seq<UtxoPointer>,
    witnesses: Seq<Witness>,
    checks: Seq<bool>,
    i: int,
    n: int,
    e: Error,
)
    requires
        0 <= i <= n,
        spend_scan(state, inputs, witnesses, checks, i) == Err::<Map<UtxoPointer, Output>, Error>(e),
    ensures
        spend_scan(state, inputs, witnesses, checks, n) == Err::<Map<UtxoPointer, Output>, Error>(e),
    decreases n - i,
{
    if i < n {
        lemma_scan_err(state, inputs, witnesses, checks, i, n - 1, e);
    }
}

proof fn lemma_sum_step(acc: int, i: int, x: int) by (nonlinear_arith)
    requires
        0 <= acc <= i * max_value(),
        0 <= i < 0x1_0000_0000_0000_0000,
        0 <= x <= max_value(),
    ensures
        acc + x <= (i + 1) * max_value(),
        (i + 1) * max_value() <= u128::MAX,
{
}

/// The ledger: the unspent outputs, each under its reference.
#[derive(Debug)]
pub struct Ledger {
    pub unspent_outputs: UtxoMap,
}

impl Ledger {
    /// A ledger whose unspent outputs are `input`.
    pub fn new(input: UtxoMap) -> (r: Ledger)
        ensures
            r.unspent_outputs@ == input@,
    {
        Ledger { unspent_outputs: input }
    }

    /// The output that `input` refers to.
    pub fn input(&self, input: &UtxoPointer) -> (r: Result<Output, Error>)
        ensures
            r == (if self.unspent_outputs@.contains_key(*input) {
                Ok(self.unspent_outputs@[*input])
            } else {
                Err(Error::InputDoesNotResolve(*input))
            }),
    {
        match self.unspent_outputs.get(input) {
            Some(output) => Ok(output),
            None => Err(Error::InputDoesNotResolve(*input)),
        }
    }

    /// Validates `transaction`, whose identifier is `id`, against the current
    /// state, and returns the delta it would make. `signature_checks[i]` is
    /// whether witness `i` verifies against the owner of the output that input
    /// `i` refers to and `id`; it is read only for inputs that resolve.
    pub fn diff_transaction(
        &self,
        transaction: &SignedTransaction,
        id: &TransactionId,
        signature_checks: &Vec<bool>,
    ) -> (r: Result<Diff, Error>)
        requires
            signature_checks@.len() == transaction.transaction.inputs@.len(),
            transaction.transaction.outputs@.len() <= 0x1_0000_0000,
        ensures
            match r {
                Ok(d) => validation(self.unspent_outputs@, *transaction, *id, signature_checks@)
                    == Ok::<DiffView, Error>(d@),
                Err(e) => validation(self.unspent_outputs@, *transaction, *id, signature_checks@)
                    == Err::<DiffView, Error>(e),
            },
    {
        let ghost state = self.unspent_outputs@;
        let inputs = &transaction.transaction.inputs;
        let outputs = &transaction.transaction.outputs;
        let witnesses = &transaction.witnesses;
        if inputs.len() > witnesses.len() {
            return Err(Error::NotEnoughSignatures(inputs.len(), witnesses.len()));
        }
        let mut spent = UtxoMap::new();
        let mut spent_total: u128 = 0;
        let mut i: usize = 0;
        while i < inputs.len()
            invariant
                0 <= i <= inputs@.len(),
                inputs@ == transaction.transaction.inputs@,
                witnesses@ == transaction.witnesses@,
                inputs@.len() <= witnesses@.len(),
                signature_checks@.len() == inputs@.len(),
                state == self.unspent_outputs@,
                spend_scan(state, inputs@, witnesses@, signature_checks@, i as int) == Ok::<
                    Map<UtxoPointer, Output>,
                    Error,
                >(spent@),
                spent_total == input_sum(state, inputs@, i as int),
                spent_total <= i * max_value(),
            decreases inputs@.len() - i,
        {
            let p = inputs[i];
            let out = match self.input(&p) {
                Ok(o) => o,
                Err(e) => {
                    proof {
                        lemma_scan_err(state, inputs@, witnesses@, signature_checks@, i + 1, inputs@.len() as int, e);
                    }
                    return Err(e);
                },
            };
            if !signature_checks[i] {
                proof {
                    lemma_scan_err(state, inputs@, witnesses@, signature_checks@, i + 1, inputs@.len() as int, Error::InvalidSignature(p, out, witnesses@[i as int]));
                }
                return Err(Error::InvalidSignature(p, out, witnesses[i]));
            }
            if let Some(prev) = spent.insert(p, out) {
                proof {
                    lemma_scan_err(state, inputs@, witnesses@, signature_checks@, i + 1, inputs@.len() as int, Error::DoubleSpend(p, prev));
                }
                return Err(Error::DoubleSpend(p, prev));
            }
            proof {
                lemma_sum_step(spent_total as int, i as int, out.1.0 as int);
            }
            spent_total = spent_total + out.1.0 as u128;
            i = i + 1;
        }
        let mut created = UtxoMap::new();
        let mut created_total: u128 = 0;
        let mut j: usize = 0;
        while j < outputs.len()
            invariant
                0 <= j <= outputs@.len(),
                outputs@.len() <= 0x1_0000_0000,
                created@ == created_view(*id, outputs@, j as int),
                created_total == output_sum(outputs@, j as int),
                created_total <= j * max_value(),
            decreases outputs@.len() - j,
        {
            let o = outputs[j];
            created.insert(UtxoPointer::new(*id, j as u32, o.1), o);
            proof {
                lemma_sum_step(created_total as int, j as int, o.1.0 as int);
            }
            created_total = created_total + o.1.0 as u128;
            j = j + 1;
        }
        if spent_total != created_total {
            return Err(Error::TransactionSumIsNonZero(spent_total, created_total));
        }
        Ok(Diff::new(spent, created))
    }

    /// Applies `diff` to the state: removes what it spends, then adds what it
    /// creates. The state is changed only when the whole delta applies.
    pub fn apply(&mut self, diff: Diff) -> (r: Result<(), Error>)
        ensures
            match r {
                Ok(()) => {
                    &&& !spends_missing(old(self).unspent_outputs@, diff@)
                    &&& forall|k: UtxoPointer| !creates_present(old(self).unspent_outputs@, diff@, k)
                    &&& final(self).unspent_outputs@ == applied(old(self).unspent_outputs@, diff@)
                },
                Err(Error::InputDoesNotResolve(k)) => {
                    &&& diff@.spent.contains_key(k)
                    &&& !old(self).unspent_outputs@.contains_key(k)
                    &&& final(self).unspent_outputs@ == old(self).unspent_outputs@
                },
                Err(Error::InputWasAlreadySet(k, existing, new)) => {
                    &&& !spends_missing(old(self).unspent_outputs@, diff@)
                    &&& creates_present(old(self).unspent_outputs@, diff@, k)
                    &&& existing == old(self).unspent_outputs@[k]
                    &&& new == diff@.created[k]
                    &&& final(self).unspent_outputs@ == old(self).unspent_outputs@
                },
                Err(_) => false,
            },
    {
        let ghost state = self.unspent_outputs@;
        let spent = diff.spent_outputs();
        let created = diff.new_unspent_outputs();
        let n = spent.len();
        let ghost sb = spent.entry_seq();
        proof {
            lemma_entries_view(sb);
        }
        let mut i: usize = 0;
        while i < n
            invariant
                n == sb.len(),
                sb == spent.entry_seq(),
                0 <= i <= n,
                keys_distinct(sb),
                spent@ == entries_view(sb),
                diff@.spent == spent@,
                self.unspent_outputs@ == state,
                forall|j: int| 0 <= j < i ==> state.contains_key(#[trigger] sb[j].0),
            decreases n - i,
        {
            let (k, _) = spent.entry(i);
            if !self.unspent_outputs.contains_key(&k) {
                proof {
                    lemma_entries_view(sb);
                    assert(sb[i as int].0 == k);
                }
                return Err(Error::InputDoesNotResolve(k));
            }
            i = i + 1;
        }
        assert(!spends_missing(state, diff@)) by {
            if spends_missing(state, diff@) {
                lemma_entries_view(sb);
                let k = choose|k: UtxoPointer|
                    #[trigger] diff@.spent.contains_key(k) && !state.contains_key(k);
                let j = choose|j: int| 0 <= j < sb.len() && sb[j].0 == k;
            }
        }
        let m = created.len();
        let ghost sc = created.entry_seq();
        proof {
            lemma_entries_view(sc);
        }
        let mut j: usize = 0;
        while j < m
            invariant
                m == sc.len(),
                sc == created.entry_seq(),
                created@ == entries_view(sc),
                keys_distinct(sc),
                diff@.spent == spent@,
                diff@.created == created@,
                !spends_missing(state, diff@),
                0 <= j <= m,
                self.unspent_outputs@ == state,
                forall|l: int| 0 <= l < j ==> !creates_present(state, diff@, #[trigger] sc[l].0),
            decreases m - j,
        {
            let (k, o) = created.entry(j);
            if let Some(existing) = self.unspent_outputs.get(&k) {
                if !spent.contains_key(&k) {
                    proof {
                        lemma_entries_view(sc);
                        assert(sc[j as int].0 == k);
                    }
                    return Err(Error::InputWasAlreadySet(k, existing, o));
                }
            }
            proof {
                lemma_entries_view(sc);
                assert(sc[j as int].0 == k);
            }
            j = j + 1;
        }
        assert forall|k: UtxoPointer| !creates_present(state, diff@, k) by {
            if creates_present(state, diff@, k) {
                lemma_entries_view(sc);
                let l = choose|l: int| 0 <= l < sc.len() && sc[l].0 == k;
            }
        }
        let ghost sbm = spent@;
        proof {
            lemma_entries_view(sb);
        }
        let mut i: usize = 0;
        while i < n
            invariant
                n == sb.len(),
                sb == spent.entry_seq(),
                keys_distinct(sb),
                spent@ == entries_view(sb),
                0 <= i <= n,
                self.unspent_outputs@ == state.remove_keys(entries_view(sb.take(i as int)).dom()),
            decreases n - i,
        {
            let (k, _) = spent.entry(i);
            proof {
                lemma_entries_view_prefix(sb, i as int);
            }
            self.unspent_outputs.remove(&k);
            proof {
                assert(self.unspent_outputs@ =~= state.remove_keys(
                    entries_view(sb.take(i + 1)).dom(),
                ));
            }
            i = i + 1;
        }
        proof {
            assert(sb.take(n as int) =~= sb);
        }
        let mut j: usize = 0;
        while j < m
            invariant
                m == sc.len(),
                sc == created.entry_seq(),
                keys_distinct(sc),
                created@ == entries_view(sc),
                0 <= j <= m,
                self.unspent_outputs@ == state.remove_keys(spent@.dom()).union_prefer_right(
                    entries_view(sc.take(j as int)),
                ),
            decreases m - j,
        {
            let (k, o) = created.entry(j);
            proof {
                lemma_entries_view_prefix(sc, j as int);
            }
            self.unspent_outputs.insert(k, o);
            proof {
                assert(self.unspent_outputs@ =~= state.remove_keys(spent@.dom()).union_prefer_right(
                    entries_view(sc.take(j + 1)),
                ));
            }
            j = j + 1;
        }
        proof {
            assert(sc.take(m as int) =~= sc);
        }
        Ok(())
    }
}

} // verus!
