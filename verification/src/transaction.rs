//! Transactions, their canonical bytes, their digests and their signatures.

use vstd::prelude::*;
use crate::hash::{sha256, H256, MAX_INPUT_LEN};
use crate::signature::{ed25519_accepts, ed25519_signature, ring_ed25519_sign, ring_ed25519_verify};

verus! {

/// `bincode::ErrorKind`, what a failed serialization reports. Nothing is
/// read from it.
#[verifier::external_type_specification]
#[verifier::external_body]
pub struct ExErrorKind(bincode::ErrorKind);

/// What a transaction spends: an address and the transaction that paid it.
#[derive(Debug)]
pub struct Input {
    pub address: String,
    pub transaction_id: String,
}

/// What a transaction pays: an address and an amount.
#[derive(Debug)]
pub struct Output {
    pub address: String,
    pub amount: u64,
}

/// What an input says.
pub struct InputView {
    pub address: Seq<char>,
    pub transaction_id: Seq<char>,
}

/// What an output says.
pub struct OutputView {
    pub address: Seq<char>,
    pub amount: u64,
}

/// What a transaction says: its inputs and its outputs, in order.
pub struct TransactionView {
    pub input: Seq<InputView>,
    pub output: Seq<OutputView>,
}

impl View for Input {
    type V = InputView;

    open spec fn view(&self) -> InputView {
        InputView { address: self.address@, transaction_id: self.transaction_id@ }
    }
}

impl View for Output {
    type V = OutputView;

    open spec fn view(&self) -> OutputView {
        OutputView { address: self.address@, amount: self.amount }
    }
}

impl Clone for Input {
    fn clone(&self) -> (copy: Input)
        ensures
            copy@ == self@,
    {
        Input { address: self.address.clone(), transaction_id: self.transaction_id.clone() }
    }
}

impl Clone for Output {
    fn clone(&self) -> (copy: Output)
        ensures
            copy@ == self@,
    {
        Output { address: self.address.clone(), amount: self.amount }
    }
}

impl Default for Input {
    fn default() -> (input: Input)
        ensures
            input@.address == Seq::<char>::empty(),
            input@.transaction_id == Seq::<char>::empty(),
    {
        Input { address: String::new(), transaction_id: String::new() }
    }
}

impl Default for Output {
    fn default() -> (output: Output)
        ensures
            output@.address == Seq::<char>::empty(),
            output@.amount == 0,
    {
        Output { address: String::new(), amount: 0 }
    }
}

/// The views of a vector's inputs, in order.
pub open spec fn input_views(input: Seq<Input>) -> Seq<InputView> {
    input.map_values(|i: Input| i@)
}

/// The views of a vector's outputs, in order.
pub open spec fn output_views(output: Seq<Output>) -> Seq<OutputView> {
    output.map_values(|o: Output| o@)
}

/// The transaction with these inputs and outputs.
pub open spec fn transaction_of(input: Seq<Input>, output: Seq<Output>) -> TransactionView {
    TransactionView { input: input_views(input), output: output_views(output) }
}

/// The bytes that bincode, with fixed-width little-endian integers and no
/// size limit, writes for a transaction: its inputs, then its outputs.
pub uninterp spec fn bincode_transaction(t: TransactionView) -> Seq<u8>;

/// Calls `bincode::serialize` on the pair of the inputs, each a pair of
/// strings, and the outputs, each a string and an integer. bincode writes a
/// tuple as it writes a struct, field after field, so these are the bytes of
/// a transaction with these two fields. The contract names them
/// `bincode_transaction` of the transaction and says that the call returns
/// `Ok`: no size limit is set, every sequence knows its length, and the
/// bytes go to a vector, so no step of the serializer can fail.
#[verifier::external_body]
fn bincode_serialize(input: &Vec<Input>, output: &Vec<Output>) -> (r: Result<
    Vec<u8>,
    bincode::Error,
>)
    ensures
        r is Ok,
        r matches Ok(bytes) ==> bytes@ == bincode_transaction(transaction_of(input@, output@)),
{
    let ins: Vec<(&str, &str)> = input.iter().map(
        |i| (i.address.as_str(), i.transaction_id.as_str()),
    ).collect();
    let outs: Vec<(&str, u64)> = output.iter().map(|o| (o.address.as_str(), o.amount)).collect();
    bincode::serialize(&(ins, outs))
}

/// A transfer from inputs to outputs. A transaction is immutable: it holds
/// its canonical bytes from the moment it is made.
#[derive(Debug)]
pub struct Transaction {
    input: Vec<Input>,
    output: Vec<Output>,
    encoded: Vec<u8>,
}

impl View for Transaction {
    type V = TransactionView;

    closed spec fn view(&self) -> TransactionView {
        transaction_of(self.input@, self.output@)
    }
}

impl Transaction {
    #[verifier::type_invariant]
    spec fn well_formed(&self) -> bool {
        &&& self.encoded@ == bincode_transaction(self@)
        &&& self.encoded@.len() < MAX_INPUT_LEN
    }

    /// Makes the transaction with these inputs and outputs. Returns `None`
    /// exactly when its canonical bytes would be `MAX_INPUT_LEN` long or
    /// longer.
    pub fn new(input: Vec<Input>, output: Vec<Output>) -> (r: Option<Transaction>)
        ensures
            r is Some <==> bincode_transaction(transaction_of(input@, output@)).len()
                < MAX_INPUT_LEN,
            r matches Some(t) ==> t@ == transaction_of(input@, output@),
    {
        match bincode_serialize(&input, &output) {
            Ok(encoded) => {
                if encoded.len() as u64 >= MAX_INPUT_LEN {
                    None
                } else {
                    Some(Transaction { input, output, encoded })
                }
            },
            Err(_) => None,
        }
    }

    /// The inputs, in order.
    pub fn input(&self) -> (input: &Vec<Input>)
        ensures
            input_views(input@) == self@.input,
    {
        &self.input
    }

    /// The outputs, in order.
    pub fn output(&self) -> (output: &Vec<Output>)
        ensures
            output_views(output@) == self@.output,
    {
        &self.output
    }

    /// The canonical bytes of the transaction.
    pub fn as_bytes(&self) -> (bytes: &Vec<u8>)
        ensures
            bytes@ == bincode_transaction(self@),
            bytes@.len() < MAX_INPUT_LEN,
    {
        proof {
            use_type_invariant(self);
        }
        &self.encoded
    }

    /// The digest of the canonical bytes.
    pub fn hash(&self) -> (h: H256)
        ensures
            h@ == sha256(bincode_transaction(self@)),
    {
        let bytes = self.as_bytes();
        H256::digest(bytes.as_slice()).unwrap()
    }
}

impl Clone for Transaction {
    fn clone(&self) -> (copy: Transaction)
        ensures
            copy@ == self@,
    {
        proof {
            use_type_invariant(self);
        }
        let input = self.input.clone();
        let output = self.output.clone();
        let encoded = self.encoded.clone();
        assert(input_views(input@) =~= input_views(self.input@));
        assert(output_views(output@) =~= output_views(self.output@));
        Transaction { input, output, encoded }
    }
}

/// Why a transaction could not be signed.
#[derive(Clone, Copy, Debug, PartialEq, Eq, Structural)]
pub enum SignError {
    /// The key is not a PKCS#8 document of an Ed25519 key pair.
    KeyRejected,
}

/// Signs the canonical bytes of `t` with the Ed25519 key pair that the
/// PKCS#8 document `key` holds.
pub fn sign(t: &Transaction, key: &[u8]) -> (r: Result<Vec<u8>, SignError>)
    ensures
        match r {
            Ok(signature) => ed25519_signature(key@, bincode_transaction(t@)) == Some(
                signature@,
            ),
            Err(e) => e == SignError::KeyRejected && ed25519_signature(
                key@,
                bincode_transaction(t@),
            ) is None,
        },
{
    let data = t.as_bytes();
    match ring_ed25519_sign(key, data.as_slice()) {
        Ok(signature) => Ok(signature),
        Err(_) => Err(SignError::KeyRejected),
    }
}

/// Whether `signature` is an Ed25519 signature of the canonical bytes of
/// `t` under `public_key`.
pub fn verify(t: &Transaction, public_key: &[u8], signature: &[u8]) -> (valid: bool)
    ensures
        valid == ed25519_accepts(public_key@, bincode_transaction(t@), signature@),
{
    let data = t.as_bytes();
    match ring_ed25519_verify(public_key, data.as_slice(), signature) {
        Ok(()) => true,
        Err(_) => false,
    }
}

} // verus!
