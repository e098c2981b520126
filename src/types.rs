//! Plain data of the ledger: identifiers, values, outputs, transactions and errors.
use vstd::prelude::*;

verus! {

broadcast use vstd::array::group_array_axioms;

/// Identifier of a transaction: the digest of its unsigned body.
#[derive(Clone, Copy, Debug, PartialEq, Eq, Hash)]
pub struct TransactionId {
    pub hash: [u8; 32],
}

/// An amount of currency.
#[derive(Clone, Copy, Debug, PartialEq, Eq, Hash)]
pub struct Value(pub u64);

/// Owner identity of an output: the public key that its witness must verify against.
#[derive(Clone, Copy, Debug, PartialEq, Eq, Hash)]
pub struct Address {
    pub key: [u8; 32],
}

/// An output: who owns it and how much it is worth.
#[derive(Clone, Copy, Debug, PartialEq, Eq, Hash)]
pub struct Output(pub Address, pub Value);

/// Reference to a spendable output: originating transaction, index of the
/// output in it, and the value that the reference claims. All three take
/// part in equality.
#[derive(Clone, Copy, Debug, PartialEq, Eq, Hash)]
pub struct UtxoPointer {
    pub transaction_id: TransactionId,
    pub output_index: u32,
    pub value: Value,
}

/// A signature authorising the spend of one input.
#[derive(Clone, Copy, Debug, PartialEq, Eq, Hash)]
pub struct Witness {
    pub signature: [u8; 64],
}

/// An unsigned transaction: the references it spends and the outputs it creates.
#[derive(Clone, Debug, PartialEq, Eq)]
pub struct Transaction {
    pub inputs: Vec<UtxoPointer>,
    pub outputs: Vec<Output>,
}

/// A transaction together with one witness per input, in matching position.
#[derive(Clone, Debug, PartialEq, Eq)]
pub struct SignedTransaction {
    pub transaction: Transaction,
    pub witnesses: Vec<Witness>,
}

/// Why a transaction or a delta was rejected.
#[derive(Clone, Copy, Debug, PartialEq, Eq)]
pub enum Error {
    /// The reference is not in the current state.
    InputDoesNotResolve(UtxoPointer),
    /// The delta creates a reference that the state already holds:
    /// the reference, the output already there, the output to be added.
    InputWasAlreadySet(UtxoPointer, Output, Output),
    /// Fewer witnesses than inputs: number of inputs, number of witnesses.
    NotEnoughSignatures(usize, usize),
    /// The witness does not authorise spending the output it is paired with.
    InvalidSignature(UtxoPointer, Output, Witness),
    /// The same reference is spent twice within one transaction.
    DoubleSpend(UtxoPointer, Output),
    /// Value spent and value created differ: spent sum, created sum.
    TransactionSumIsNonZero(u128, u128),
}

impl UtxoPointer {
    pub fn new(transaction_id: TransactionId, output_index: u32, value: Value) -> (r: UtxoPointer)
        ensures
            r == (UtxoPointer { transaction_id, output_index, value }),
    {
        UtxoPointer { transaction_id, output_index, value }
    }
}

/// Byte-wise equality of two fixed-size arrays.
fn bytes_eq<const N: usize>(a: &[u8; N], b: &[u8; N]) -> (r: bool)
    ensures
        r == (*a == *b),
{
    let mut i: usize = 0;
    while i < N
        invariant
            0 <= i <= N,
            forall|j: int| 0 <= j < i ==> a[j] == b[j],
        decreases N - i,
    {
        if a[i] != b[i] {
            return false;
        }
        i = i + 1;
    }
    assert(*a =~= *b);
    true
}

/// Equality of references over the full triple.
pub fn pointer_eq(a: &UtxoPointer, b: &UtxoPointer) -> (r: bool)
    ensures
        r == (*a == *b),
{
    a.output_index == b.output_index && a.value.0 == b.value.0 && bytes_eq(
        &a.transaction_id.hash,
        &b.transaction_id.hash,
    )
}

/// Equality of outputs: same owner and same value.
pub fn output_eq(a: &Output, b: &Output) -> (r: bool)
    ensures
        r == (*a == *b),
{
    a.1.0 == b.1.0 && bytes_eq(&a.0.key, &b.0.key)
}

} // verus!
