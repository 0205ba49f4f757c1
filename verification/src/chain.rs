//! Blocks and transactions, as far as the pool reads them.

use vstd::prelude::*;

use crate::bytes::same_bytes;
use crate::table::copy_all;

verus! {

/// A reference to an output that a transaction spends.
#[derive(Clone, Copy, Debug)]
pub struct TransactionInput {
    pub transaction_id: [u8; 32],
    pub output_index: usize,
    pub signature: Option<[u8; 64]>,
    pub output_owner: [u8; 32],
}

/// An amount and the key that receives it.
#[derive(Clone, Copy, Debug)]
pub struct TransactionOutput {
    pub amount: u64,
    pub receiver: [u8; 32],
}

/// A transfer. A transaction without inputs pays a block reward.
#[derive(Clone, Debug)]
pub struct Transaction {
    pub inputs: Vec<TransactionInput>,
    pub outputs: Vec<TransactionOutput>,
    pub transaction_id: Option<[u8; 32]>,
    pub nonce: u64,
    pub timestamp: u64,
}

/// What a block says of itself besides its transactions. The address inclusion
/// filter is kept in its serialised form.
#[derive(Clone, Debug)]
pub struct BlockMetadata {
    pub block_pow_difficulty: [u8; 32],
    pub tx_pow_difficulty: [u8; 32],
    pub previous_block: [u8; 32],
    pub hash: Option<[u8; 32]>,
    pub merkle_tree_root: [u8; 32],
    pub address_inclusion_filter: Vec<u8>,
}

/// A block, mined or still to be mined.
#[derive(Clone, Debug)]
pub struct Block {
    pub transactions: Vec<Transaction>,
    pub timestamp: u64,
    pub nonce: u64,
    pub meta: BlockMetadata,
}

/// The contents of a `TransactionInput`.
#[verifier::ext_equal]
pub struct InputView {
    pub transaction_id: Seq<u8>,
    pub output_index: usize,
    pub signature: Option<Seq<u8>>,
    pub output_owner: Seq<u8>,
}

/// The contents of a `TransactionOutput`.
#[verifier::ext_equal]
pub struct OutputView {
    pub amount: u64,
    pub receiver: Seq<u8>,
}

/// The contents of a `Transaction`.
#[verifier::ext_equal]
pub struct TransactionView {
    pub inputs: Seq<InputView>,
    pub outputs: Seq<OutputView>,
    pub transaction_id: Option<Seq<u8>>,
    pub nonce: u64,
    pub timestamp: u64,
}

/// The contents of a `BlockMetadata`.
#[verifier::ext_equal]
pub struct MetadataView {
    pub block_pow_difficulty: Seq<u8>,
    pub tx_pow_difficulty: Seq<u8>,
    pub previous_block: Seq<u8>,
    pub hash: Option<Seq<u8>>,
    pub merkle_tree_root: Seq<u8>,
    pub address_inclusion_filter: Seq<u8>,
}

/// The contents of a `Block`.
#[verifier::ext_equal]
pub struct BlockView {
    pub transactions: Seq<TransactionView>,
    pub timestamp: u64,
    pub nonce: u64,
    pub meta: MetadataView,
}

/// The bytes of an optional array.
pub open spec fn opt_bytes<const N: usize>(o: Option<[u8; N]>) -> Option<Seq<u8>> {
    match o {
        Some(a) => Some(a@),
        None => None,
    }
}

impl View for TransactionInput {
    type V = InputView;

    open spec fn view(&self) -> InputView {
        InputView {
            transaction_id: self.transaction_id@,
            output_index: self.output_index,
            signature: opt_bytes(self.signature),
            output_owner: self.output_owner@,
        }
    }
}

impl View for TransactionOutput {
    type V = OutputView;

    open spec fn view(&self) -> OutputView {
        OutputView { amount: self.amount, receiver: self.receiver@ }
    }
}

/// The contents of a list of inputs.
pub open spec fn inputs_view(s: Seq<TransactionInput>) -> Seq<InputView> {
    s.map_values(|i: TransactionInput| i@)
}

/// The contents of a list of outputs.
pub open spec fn outputs_view(s: Seq<TransactionOutput>) -> Seq<OutputView> {
    s.map_values(|o: TransactionOutput| o@)
}

impl View for Transaction {
    type V = TransactionView;

    open spec fn view(&self) -> TransactionView {
        TransactionView {
            inputs: inputs_view(self.inputs@),
            outputs: outputs_view(self.outputs@),
            transaction_id: opt_bytes(self.transaction_id),
            nonce: self.nonce,
            timestamp: self.timestamp,
        }
    }
}

/// The contents of a list of transactions.
pub open spec fn transactions_view(s: Seq<Transaction>) -> Seq<TransactionView> {
    s.map_values(|t: Transaction| t@)
}

impl View for BlockMetadata {
    type V = MetadataView;

    open spec fn view(&self) -> MetadataView {
        MetadataView {
            block_pow_difficulty: self.block_pow_difficulty@,
            tx_pow_difficulty: self.tx_pow_difficulty@,
            previous_block: self.previous_block@,
            hash: opt_bytes(self.hash),
            merkle_tree_root: self.merkle_tree_root@,
            address_inclusion_filter: self.address_inclusion_filter@,
        }
    }
}

impl View for Block {
    type V = BlockView;

    open spec fn view(&self) -> BlockView {
        BlockView {
            transactions: transactions_view(self.transactions@),
            timestamp: self.timestamp,
            nonce: self.nonce,
            meta: self.meta@,
        }
    }
}

fn same_optional_bytes<const N: usize>(a: &Option<[u8; N]>, b: &Option<[u8; N]>) -> (r: bool)
    ensures
        r == (opt_bytes(*a) == opt_bytes(*b)),
{
    match (a, b) {
        (Some(x), Some(y)) => same_bytes(x, y),
        (None, None) => true,
        _ => false,
    }
}

impl TransactionInput {
    /// Whether two inputs are the same.
    pub fn same(&self, other: &TransactionInput) -> (r: bool)
        ensures
            r == (self@ == other@),
    {
        same_bytes(&self.transaction_id, &other.transaction_id) && self.output_index
            == other.output_index && same_optional_bytes(&self.signature, &other.signature)
            && same_bytes(&self.output_owner, &other.output_owner)
    }
}

impl TransactionOutput {
    /// Whether two outputs are the same.
    pub fn same(&self, other: &TransactionOutput) -> (r: bool)
        ensures
            r == (self@ == other@),
    {
        self.amount == other.amount && same_bytes(&self.receiver, &other.receiver)
    }
}

/// Whether two lists of inputs are the same.
fn same_inputs(a: &Vec<TransactionInput>, b: &Vec<TransactionInput>) -> (r: bool)
    ensures
        r == (inputs_view(a@) == inputs_view(b@)),
{
    if a.len() != b.len() {
        assert(inputs_view(a@).len() != inputs_view(b@).len());
        return false;
    }
    let mut i: usize = 0;
    while i < a.len()
        invariant
            i <= a.len(),
            a.len() == b.len(),
            forall|j: int| 0 <= j < i ==> inputs_view(a@)[j] == inputs_view(b@)[j],
        decreases a.len() - i,
    {
        if !a[i].same(&b[i]) {
            assert(inputs_view(a@)[i as int] != inputs_view(b@)[i as int]);
            return false;
        }
        i = i + 1;
    }
    assert(inputs_view(a@) =~= inputs_view(b@));
    true
}

/// Whether two lists of outputs are the same.
fn same_outputs(a: &Vec<TransactionOutput>, b: &Vec<TransactionOutput>) -> (r: bool)
    ensures
        r == (outputs_view(a@) == outputs_view(b@)),
{
    if a.len() != b.len() {
        assert(outputs_view(a@).len() != outputs_view(b@).len());
        return false;
    }
    let mut i: usize = 0;
    while i < a.len()
        invariant
            i <= a.len(),
            a.len() == b.len(),
            forall|j: int| 0 <= j < i ==> outputs_view(a@)[j] == outputs_view(b@)[j],
        decreases a.len() - i,
    {
        if !a[i].same(&b[i]) {
            assert(outputs_view(a@)[i as int] != outputs_view(b@)[i as int]);
            return false;
        }
        i = i + 1;
    }
    assert(outputs_view(a@) =~= outputs_view(b@));
    true
}

impl Transaction {
    /// Whether two transactions are the same.
    pub fn same(&self, other: &Transaction) -> (r: bool)
        ensures
            r == (self@ == other@),
    {
        same_inputs(&self.inputs, &other.inputs) && same_outputs(&self.outputs, &other.outputs)
            && same_optional_bytes(&self.transaction_id, &other.transaction_id) && self.nonce
            == other.nonce && self.timestamp == other.timestamp
    }

    /// A transaction with the same contents.
    pub fn copy(&self) -> (r: Transaction)
        ensures
            r@ == self@,
    {
        Transaction {
            inputs: copy_all(&self.inputs),
            outputs: copy_all(&self.outputs),
            transaction_id: self.transaction_id,
            nonce: self.nonce,
            timestamp: self.timestamp,
        }
    }
}

/// Whether two lists of transactions are the same.
pub fn same_transactions(a: &Vec<Transaction>, b: &Vec<Transaction>) -> (r: bool)
    ensures
        r == (transactions_view(a@) == transactions_view(b@)),
{
    if a.len() != b.len() {
        assert(transactions_view(a@).len() != transactions_view(b@).len());
        return false;
    }
    let mut i: usize = 0;
    while i < a.len()
        invariant
            i <= a.len(),
            a.len() == b.len(),
            forall|j: int| 0 <= j < i ==> transactions_view(a@)[j] == transactions_view(b@)[j],
        decreases a.len() - i,
    {
        if !a[i].same(&b[i]) {
            assert(transactions_view(a@)[i as int] != transactions_view(b@)[i as int]);
            return false;
        }
        i = i + 1;
    }
    assert(transactions_view(a@) =~= transactions_view(b@));
    true
}

/// A copy of a list of transactions.
fn copy_transactions(a: &Vec<Transaction>) -> (r: Vec<Transaction>)
    ensures
        transactions_view(r@) == transactions_view(a@),
{
    let mut r: Vec<Transaction> = Vec::new();
    let mut i: usize = 0;
    while i < a.len()
        invariant
            i <= a.len(),
            r@.len() == i,
            forall|j: int| 0 <= j < i ==> (#[trigger] r@[j])@ == a@[j]@,
        decreases a.len() - i,
    {
        r.push(a[i].copy());
        i = i + 1;
    }
    assert(transactions_view(r@) =~= transactions_view(a@));
    r
}

impl BlockMetadata {
    /// Whether two blocks' metadata differ in the hash at most.
    pub fn same_but_for_hash(&self, other: &BlockMetadata) -> (r: bool)
        ensures
            r == (self@.without_hash() == other@.without_hash()),
    {
        same_bytes(&self.block_pow_difficulty, &other.block_pow_difficulty) && same_bytes(
            &self.tx_pow_difficulty,
            &other.tx_pow_difficulty,
        ) && same_bytes(&self.previous_block, &other.previous_block) && same_bytes(
            &self.merkle_tree_root,
            &other.merkle_tree_root,
        ) && same_bytes(&self.address_inclusion_filter, &other.address_inclusion_filter)
    }
}

impl Block {
    /// A block with the same contents.
    pub fn copy(&self) -> (r: Block)
        ensures
            r@ == self@,
    {
        Block {
            transactions: copy_transactions(&self.transactions),
            timestamp: self.timestamp,
            nonce: self.nonce,
            meta: BlockMetadata {
                block_pow_difficulty: self.meta.block_pow_difficulty,
                tx_pow_difficulty: self.meta.tx_pow_difficulty,
                previous_block: self.meta.previous_block,
                hash: self.meta.hash,
                merkle_tree_root: self.meta.merkle_tree_root,
                address_inclusion_filter: copy_all(&self.meta.address_inclusion_filter),
            },
        }
    }
}

impl MetadataView {
    /// The metadata with the block hash taken out.
    pub open spec fn without_hash(self) -> MetadataView {
        MetadataView { hash: None, ..self }
    }
}

/// The contents of a transaction are those of its inputs and outputs, field by
/// field and in their order, and its own fields.
pub proof fn law_transaction_contents(t: Transaction, i: int)
    ensures
        t@.transaction_id is Some <==> t.transaction_id is Some,
        t.transaction_id is Some ==> t@.transaction_id->0 == t.transaction_id->0@,
        t@.nonce == t.nonce,
        t@.timestamp == t.timestamp,
        t@.inputs.len() == t.inputs@.len(),
        t@.outputs.len() == t.outputs@.len(),
        0 <= i < t.inputs@.len() ==> {
            &&& t@.inputs[i].transaction_id == t.inputs@[i].transaction_id@
            &&& t@.inputs[i].output_index == t.inputs@[i].output_index
            &&& t@.inputs[i].signature is Some <==> t.inputs@[i].signature is Some
            &&& t.inputs@[i].signature is Some ==> t@.inputs[i].signature->0
                == t.inputs@[i].signature->0@
            &&& t@.inputs[i].output_owner == t.inputs@[i].output_owner@
        },
        0 <= i < t.outputs@.len() ==> {
            &&& t@.outputs[i].amount == t.outputs@[i].amount
            &&& t@.outputs[i].receiver == t.outputs@[i].receiver@
        },
{
}

/// The contents of a block are those of its transactions, in their order, and all
/// fields of the block and of its metadata.
pub proof fn law_block_contents(b: Block, i: int)
    ensures
        b@.transactions.len() == b.transactions@.len(),
        0 <= i < b.transactions@.len() ==> b@.transactions[i] == b.transactions@[i]@,
        b@.timestamp == b.timestamp,
        b@.nonce == b.nonce,
        b@.meta.block_pow_difficulty == b.meta.block_pow_difficulty@,
        b@.meta.tx_pow_difficulty == b.meta.tx_pow_difficulty@,
        b@.meta.previous_block == b.meta.previous_block@,
        b@.meta.hash is Some <==> b.meta.hash is Some,
        b.meta.hash is Some ==> b@.meta.hash->0 == b.meta.hash->0@,
        b@.meta.merkle_tree_root == b.meta.merkle_tree_root@,
        b@.meta.address_inclusion_filter == b.meta.address_inclusion_filter@,
{
}

/// Metadata agree but for the hash where all other fields agree.
pub proof fn law_metadata_agree_by_field(a: MetadataView, b: MetadataView)
    ensures
        a.without_hash() == b.without_hash() <==> a.block_pow_difficulty == b.block_pow_difficulty
            && a.tx_pow_difficulty == b.tx_pow_difficulty && a.previous_block == b.previous_block
            && a.merkle_tree_root == b.merkle_tree_root && a.address_inclusion_filter
            == b.address_inclusion_filter,
{
}

} // verus!
