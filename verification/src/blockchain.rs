use vstd::prelude::*;
use crate::block::{
    block_bytes, spec_check_difficulty, zero_hash, zero_hash_vec, check_difficulty, Block,
};
use crate::hashable::{digest_of, Hashable};
use crate::transaction::{
    lemma_output_hash_set_contains, output_hash, output_hash_set, sum_outputs_u128, sum_values,
    Output, Transaction,
};
use crate::utxo::{hash_eq, lemma_to_set_head, lemma_to_set_push, UtxoSet};

verus! {

/// Why a candidate block was refused; the ledger is unchanged in every case.
#[derive(Debug, PartialEq, Eq, Structural)]
pub enum BlockValidationErr {
    MismatchedIndex,
    InvalidHash,
    AchronologicalTimestamp,
    MismatchedPreviousHash,
    InvalidGenesisBlockFormat,
    InvalidInput,
    InsufficientInputValue,
    InvalidCoinbaseTransaction,
}

/// The digests spent by the transactions of `txs` from position `i` on:
/// every input's digest.
pub open spec fn spent_from(txs: Seq<Transaction>, i: int) -> Set<Seq<u8>>
    decreases txs.len() - i,
{
    if i < 0 || i >= txs.len() {
        Set::empty()
    } else {
        output_hash_set(txs[i].inputs@).union(spent_from(txs, i + 1))
    }
}

/// The digests created by the transactions of `txs` from position `i` on:
/// every output's digest.
pub open spec fn created_from(txs: Seq<Transaction>, i: int) -> Set<Seq<u8>>
    decreases txs.len() - i,
{
    if i < 0 || i >= txs.len() {
        Set::empty()
    } else {
        output_hash_set(txs[i].outputs@).union(created_from(txs, i + 1))
    }
}

/// The fees collected by the transactions of `txs` from position `i` on:
/// each transaction's input value minus its output value.
pub open spec fn fees_from(txs: Seq<Transaction>, i: int) -> int
    decreases txs.len() - i,
{
    if i < 0 || i >= txs.len() {
        0
    } else {
        sum_values(txs[i].inputs@) - sum_values(txs[i].outputs@) + fees_from(txs, i + 1)
    }
}

/// The digests a block removes from the UTXO set: everything spent by its
/// non-coinbase transactions.
pub open spec fn block_spent(b: Block) -> Set<Seq<u8>> {
    spent_from(b.transactions@, 1)
}

/// The digests a block adds to the UTXO set: everything created by any of
/// its transactions, the coinbase included.
pub open spec fn block_created(b: Block) -> Set<Seq<u8>> {
    created_from(b.transactions@, 0)
}

/// Validation of the non-coinbase transactions of `txs` from position `i`
/// on, in order, against the persisted UTXO set `utxo` and the running
/// spent-set and fee total: the first failure wins; success carries the
/// final spent-set and fee total.
pub open spec fn validate_txs(
    txs: Seq<Transaction>,
    utxo: Set<Seq<u8>>,
    i: int,
    spent: Set<Seq<u8>>,
    fee: nat,
) -> Result<(Set<Seq<u8>>, nat), BlockValidationErr>
    decreases txs.len() - i,
{
    if i < 0 || i >= txs.len() {
        Ok((spent, fee))
    } else {
        let ih = output_hash_set(txs[i].inputs@);
        if !ih.subset_of(utxo) || !ih.disjoint(spent) {
            Err(BlockValidationErr::InvalidInput)
        } else if sum_values(txs[i].outputs@) > sum_values(txs[i].inputs@) {
            Err(BlockValidationErr::InsufficientInputValue)
        } else {
            validate_txs(
                txs,
                utxo,
                i + 1,
                spent.union(ih),
                (fee + sum_values(txs[i].inputs@) - sum_values(txs[i].outputs@)) as nat,
            )
        }
    }
}

/// What one call of `update_with_block` does to a ledger holding `blocks`
/// and the UTXO set `utxo`: either the error of the first failing check, or
/// the extended chain and the reshaped UTXO set.
pub open spec fn spec_update(blocks: Seq<Block>, utxo: Set<Seq<u8>>, b: Block) -> Result<
    (Seq<Block>, Set<Seq<u8>>),
    BlockValidationErr,
> {
    if b.index as int != blocks.len() {
        Err(BlockValidationErr::MismatchedIndex)
    } else if !spec_check_difficulty(digest_of(block_bytes(b)), b.difficulty) {
        Err(BlockValidationErr::InvalidHash)
    } else if blocks.len() > 0 && b.timestamp <= blocks.last().timestamp {
        Err(BlockValidationErr::AchronologicalTimestamp)
    } else if blocks.len() > 0 && b.prev_block_hash@ != blocks.last().hash@ {
        Err(BlockValidationErr::MismatchedPreviousHash)
    } else if blocks.len() == 0 && b.prev_block_hash@ != zero_hash() {
        Err(BlockValidationErr::InvalidGenesisBlockFormat)
    } else if b.transactions@.len() > 0 {
        if b.transactions@[0].inputs@.len() > 0 {
            Err(BlockValidationErr::InvalidCoinbaseTransaction)
        } else {
            match validate_txs(b.transactions@, utxo, 1, Set::empty(), 0) {
                Err(e) => Err(e),
                Ok((spent, fee)) => {
                    if sum_values(b.transactions@[0].outputs@) < fee {
                        Err(BlockValidationErr::InvalidCoinbaseTransaction)
                    } else {
                        Ok((blocks.push(b), utxo.difference(spent).union(block_created(b))))
                    }
                },
            }
        }
    } else {
        Ok((blocks.push(b), utxo))
    }
}

/// The result alone of `spec_update`, with the accepted state dropped.
pub open spec fn spec_update_result(
    blocks: Seq<Block>,
    utxo: Set<Seq<u8>>,
    b: Block,
) -> Result<(), BlockValidationErr> {
    match spec_update(blocks, utxo, b) {
        Ok(_) => Ok(()),
        Err(e) => Err(e),
    }
}

/// A block's transactions are balanced: if there are any, the first is a
/// coinbase, every later one creates no more value than it consumes, and the
/// coinbase's total output covers the other transactions' fees.
pub open spec fn block_coinbase_ok(b: Block) -> bool {
    b.transactions@.len() > 0 ==> {
        &&& b.transactions@[0].inputs@.len() == 0
        &&& forall|j: int|
            1 <= j < b.transactions@.len() ==> sum_values(#[trigger] b.transactions@[j].outputs@)
                <= sum_values(b.transactions@[j].inputs@)
        &&& sum_values(b.transactions@[0].outputs@) >= fees_from(b.transactions@, 1)
    }
}

/// The chain invariants every accepted prefix satisfies: gapless zero-based
/// indices, an all-zero previous hash at the start, hash linkage and strictly
/// increasing timestamps between neighbours, proof of work recomputed from
/// each block's own bytes, and balanced transactions.
pub open spec fn chain_wf(blocks: Seq<Block>) -> bool {
    &&& forall|i: int| 0 <= i < blocks.len() ==> (#[trigger] blocks[i].index) as int == i
    &&& blocks.len() > 0 ==> blocks[0].prev_block_hash@ == zero_hash()
    &&& forall|i: int|
        1 <= i < blocks.len() ==> (#[trigger] blocks[i].prev_block_hash@) == blocks[i - 1].hash@
    &&& forall|i: int|
        1 <= i < blocks.len() ==> (#[trigger] blocks[i].timestamp) > blocks[i - 1].timestamp
    &&& forall|i: int|
        0 <= i < blocks.len() ==> spec_check_difficulty(
            digest_of(block_bytes(#[trigger] blocks[i])),
            blocks[i].difficulty,
        )
    &&& forall|i: int| 0 <= i < blocks.len() ==> block_coinbase_ok(#[trigger] blocks[i])
}

/// The UTXO set a chain determines: block by block, what an accepted block
/// spent leaves, and what it created enters.
pub open spec fn chain_utxo(blocks: Seq<Block>) -> Set<Seq<u8>>
    decreases blocks.len(),
{
    if blocks.len() == 0 {
        Set::empty()
    } else {
        chain_utxo(blocks.drop_last()).difference(block_spent(blocks.last())).union(
            block_created(blocks.last()),
        )
    }
}

/// A successful transaction validation determines the final spent-set and
/// fee total, and every validated transaction is balanced.
pub proof fn lemma_validate_txs_ok(
    txs: Seq<Transaction>,
    utxo: Set<Seq<u8>>,
    i: int,
    spent: Set<Seq<u8>>,
    fee: nat,
)
    requires
        0 <= i,
        validate_txs(txs, utxo, i, spent, fee) is Ok,
    ensures
        fees_from(txs, i) >= 0,
        validate_txs(txs, utxo, i, spent, fee) == Ok::<_, BlockValidationErr>(
            (spent.union(spent_from(txs, i)), (fee + fees_from(txs, i)) as nat),
        ),
        forall|j: int|
            i <= j < txs.len() ==> sum_values(#[trigger] txs[j].outputs@) <= sum_values(
                txs[j].inputs@,
            ),
    decreases txs.len() - i,
{
    if i < 0 || i >= txs.len() {
        assert(spent.union(spent_from(txs, i)) =~= spent);
    } else {
        let ih = output_hash_set(txs[i].inputs@);
        let d = sum_values(txs[i].inputs@) - sum_values(txs[i].outputs@);
        assert(sum_values(txs[i].outputs@) <= sum_values(txs[i].inputs@));
        lemma_validate_txs_ok(txs, utxo, i + 1, spent.union(ih), (fee + d) as nat);
        assert(spent.union(spent_from(txs, i)) =~= spent.union(ih).union(spent_from(txs, i + 1)));
        assert forall|j: int|
            i <= j < txs.len() implies sum_values(#[trigger] txs[j].outputs@) <= sum_values(
            txs[j].inputs@,
        ) by {
            if j == i {
                assert(sum_values(txs[i].outputs@) <= sum_values(txs[i].inputs@));
            } else {
                assert(i + 1 <= j < txs.len());
            }
        }
    }
}

/// Genesis acceptance: on an empty ledger, a first block with the all-zero
/// previous hash and at most a single coinbase transaction is accepted
/// exactly when its recomputed digest satisfies its own difficulty
/// threshold.
pub proof fn lemma_genesis_acceptance(b: Block)
    requires
        b.index == 0,
        b.prev_block_hash@ == zero_hash(),
        b.transactions@.len() == 0 || (b.transactions@.len() == 1 && b.transactions@[0].inputs@.len()
            == 0),
    ensures
        spec_update(Seq::empty(), Set::empty(), b) is Ok <==> spec_check_difficulty(
            digest_of(block_bytes(b)),
            b.difficulty,
        ),
{
    if b.transactions@.len() == 1 {
        assert(validate_txs(b.transactions@, Set::empty(), 1, Set::empty(), 0) == Ok::<
            _,
            BlockValidationErr,
        >((Set::<Seq<u8>>::empty(), 0nat)));
    }
}

/// Chronology: a successor block whose timestamp does not strictly exceed
/// its predecessor's is rejected as achronological, even when its index and
/// proof of work are in order.
pub proof fn lemma_chronology_rejection(blocks: Seq<Block>, utxo: Set<Seq<u8>>, b: Block)
    requires
        blocks.len() > 0,
        b.index as int == blocks.len(),
        spec_check_difficulty(digest_of(block_bytes(b)), b.difficulty),
        b.timestamp <= blocks.last().timestamp,
    ensures
        spec_update(blocks, utxo, b) == Err::<(Seq<Block>, Set<Seq<u8>>), _>(
            BlockValidationErr::AchronologicalTimestamp,
        ),
{
}

/// Fee boundary: when every other check passes -- index, proof of work,
/// linkage, coinbase shape, and the validation of the non-coinbase
/// transactions with fee total `fee` -- the block is accepted exactly when
/// its coinbase's total output value covers `fee`.
pub proof fn lemma_fee_boundary(
    blocks: Seq<Block>,
    utxo: Set<Seq<u8>>,
    b: Block,
    spent: Set<Seq<u8>>,
    fee: nat,
)
    requires
        b.index as int == blocks.len(),
        spec_check_difficulty(digest_of(block_bytes(b)), b.difficulty),
        blocks.len() > 0 ==> b.timestamp > blocks.last().timestamp,
        blocks.len() > 0 ==> b.prev_block_hash@ == blocks.last().hash@,
        blocks.len() == 0 ==> b.prev_block_hash@ == zero_hash(),
        b.transactions@.len() > 0,
        b.transactions@[0].inputs@.len() == 0,
        validate_txs(b.transactions@, utxo, 1, Set::empty(), 0) == Ok::<_, BlockValidationErr>(
            (spent, fee),
        ),
    ensures
        spec_update(blocks, utxo, b) is Ok <==> sum_values(b.transactions@[0].outputs@) >= fee,
{
}

/// An accepted block extends a well-formed chain to a well-formed chain, and
/// reshapes the UTXO set into exactly the one the longer chain determines.
pub proof fn lemma_update_preserves_wf(blocks0: Seq<Block>, utxo0: Set<Seq<u8>>, b: Block)
    requires
        chain_wf(blocks0),
        utxo0 == chain_utxo(blocks0),
        spec_update(blocks0, utxo0, b) is Ok,
    ensures
        chain_wf(blocks0.push(b)),
        spec_update(blocks0, utxo0, b) == Ok::<_, BlockValidationErr>(
            (blocks0.push(b), chain_utxo(blocks0.push(b))),
        ),
{
    let new_blocks = blocks0.push(b);
    assert(new_blocks.drop_last() =~= blocks0);
    // the coinbase conditions of the new block, from a successful validation
    if b.transactions@.len() > 0 {
        lemma_validate_txs_ok(b.transactions@, utxo0, 1, Set::empty(), 0nat);
        assert(block_coinbase_ok(b));
    }
    assert forall|i: int| 0 <= i < new_blocks.len() implies (#[trigger] new_blocks[i].index)
        as int == i by {
        if i < blocks0.len() {
            assert(new_blocks[i] == blocks0[i]);
        }
    }
    assert forall|i: int| 1 <= i < new_blocks.len() implies (
    #[trigger] new_blocks[i].prev_block_hash@) == new_blocks[i - 1].hash@ by {
        if i < blocks0.len() {
            assert(new_blocks[i] == blocks0[i]);
        }
    }
    assert forall|i: int| 1 <= i < new_blocks.len() implies (#[trigger] new_blocks[i].timestamp)
        > new_blocks[i - 1].timestamp by {
        if i < blocks0.len() {
            assert(new_blocks[i] == blocks0[i]);
        }
    }
    assert forall|i: int| 0 <= i < new_blocks.len() implies spec_check_difficulty(
        digest_of(block_bytes(#[trigger] new_blocks[i])),
        new_blocks[i].difficulty,
    ) by {
        if i < blocks0.len() {
            assert(new_blocks[i] == blocks0[i]);
        }
    }
    assert forall|i: int| 0 <= i < new_blocks.len() implies block_coinbase_ok(
        #[trigger] new_blocks[i],
    ) by {
        if i < blocks0.len() {
            assert(new_blocks[i] == blocks0[i]);
        }
    }
    // the Ok value is the UTXO set of the longer chain
    if b.transactions@.len() > 0 {
        lemma_validate_txs_ok(b.transactions@, utxo0, 1, Set::empty(), 0nat);
        let spent = validate_txs(b.transactions@, utxo0, 1, Set::empty(), 0)->Ok_0.0;
        assert(spent =~= block_spent(b));
    } else {
        assert(spent_from(b.transactions@, 1) =~= Set::<Seq<u8>>::empty());
        assert(created_from(b.transactions@, 0) =~= Set::<Seq<u8>>::empty());
        assert(utxo0.difference(block_spent(b)).union(block_created(b)) =~= utxo0);
    }
}

/// The append-only ledger: the accepted chain and the derived UTXO set.
pub struct Blockchain {
    pub blocks: Vec<Block>,
    pub unspent_outputs: UtxoSet,
}

impl Blockchain {
    /// The ledger's UTXO set, as the set of digests it holds.
    pub open spec fn utxo(&self) -> Set<Seq<u8>> {
        self.unspent_outputs@
    }

    /// The ledger's invariant: the chain invariants hold and the UTXO set is
    /// exactly the one the chain determines.
    pub open spec fn wf(&self) -> bool {
        &&& chain_wf(self.blocks@)
        &&& self.unspent_outputs.wf()
        &&& self.utxo() == chain_utxo(self.blocks@)
    }

    /// An empty ledger: no blocks, no unspent outputs.
    pub fn new() -> (r: Blockchain)
        ensures
            r.blocks@.len() == 0,
            r.utxo() == Set::<Seq<u8>>::empty(),
            r.wf(),
    {
        Blockchain { blocks: Vec::new(), unspent_outputs: UtxoSet::new() }
    }

    /// How many distinct unspent outputs the ledger holds.
    pub fn unspent_output_count(&self) -> (r: usize)
        requires
            self.wf(),
        ensures
            r == self.utxo().len(),
    {
        self.unspent_outputs.len()
    }

    /// Validate a candidate block against the current chain and UTXO set and,
    /// only on full success, commit it: remove what it spends, add what it
    /// creates, and append it. Any failure returns the first failing check's
    /// error and leaves the ledger completely unchanged.
    #[verifier::loop_isolation(false)]
    #[verifier::rlimit(50)]
    pub fn update_with_block(&mut self, block: Block) -> (r: Result<(), BlockValidationErr>)
        requires
            old(self).wf(),
        ensures
            final(self).wf(),
            r == spec_update_result(old(self).blocks@, old(self).utxo(), block),
            r is Err ==> *final(self) == *old(self),
            r is Ok ==> final(self).blocks@ == old(self).blocks@.push(block),
            r is Ok ==> final(self).utxo() == old(self).utxo().difference(block_spent(block)).union(
                block_created(block),
            ),
            r is Ok ==> spec_update(old(self).blocks@, old(self).utxo(), block) == Ok::<
                _,
                BlockValidationErr,
            >((final(self).blocks@, final(self).utxo())),
    {
        let ghost blocks0 = self.blocks@;
        let ghost utxo0 = self.unspent_outputs@;
        let block_num = self.blocks.len();
        if (block.index as usize) != block_num {
            return Err(BlockValidationErr::MismatchedIndex);
        }
        let recomputed = block.hash();
        if !check_difficulty(&recomputed, block.difficulty) {
            return Err(BlockValidationErr::InvalidHash);
        }
        if block_num != 0 {
            let prev_block = &self.blocks[block_num - 1];
            if block.timestamp <= prev_block.timestamp {
                return Err(BlockValidationErr::AchronologicalTimestamp);
            }
            if !hash_eq(&block.prev_block_hash, &prev_block.hash) {
                return Err(BlockValidationErr::MismatchedPreviousHash);
            }
        } else {
            let z = zero_hash_vec();
            if !hash_eq(&block.prev_block_hash, &z) {
                return Err(BlockValidationErr::InvalidGenesisBlockFormat);
            }
        }
        let ghost txs = block.transactions@;
        if block.transactions.len() > 0 {
            if !block.transactions[0].is_coinbase() {
                return Err(BlockValidationErr::InvalidCoinbaseTransaction);
            }
            let vr = check_transactions(&self.unspent_outputs, &block.transactions);
            let (block_spent_set, total_fee, exact_fee) = match vr {
                Err(e) => {
                    return Err(e);
                },
                Ok(t) => t,
            };
            let coinbase_value = sum_outputs_u128(&block.transactions[0].outputs);
            proof {
                assert((u64::MAX as nat) * (u64::MAX as nat) < u128::MAX as nat);
            }
            if coinbase_value < total_fee {
                return Err(BlockValidationErr::InvalidCoinbaseTransaction);
            }
            proof {
                // covering the fee total means it never saturated
                assert(exact_fee@ <= u128::MAX as nat);
            }
            self.unspent_outputs.remove_all(&block_spent_set);
            insert_created(&mut self.unspent_outputs, &block.transactions);
            proof {
                lemma_validate_txs_ok(txs, utxo0, 1, Set::empty(), 0nat);
                assert(block_spent_set@ =~= Set::empty().union(spent_from(txs, 1)));
                assert(block_spent_set@ == block_spent(block));
            }
        } else {
            proof {
                assert(spent_from(txs, 1) =~= Set::<Seq<u8>>::empty());
                assert(created_from(txs, 0) =~= Set::<Seq<u8>>::empty());
                assert(utxo0.difference(block_spent(block)).union(block_created(block)) =~= utxo0);
            }
        }
        self.blocks.push(block);
        proof {
            lemma_update_preserves_wf(blocks0, utxo0, block);
        }
        Ok(())
    }
}

/// Validation of a block's non-coinbase transactions, in order, against the
/// persisted UTXO set: the executable counterpart of `validate_txs` from
/// position 1 with empty running state. On success, returns the spent-set,
/// the fee total saturated to 128 bits, and the exact fee total as a ghost
/// value.
#[verifier::loop_isolation(false)]
#[verifier::rlimit(50)]
fn check_transactions(utxo: &UtxoSet, txs: &Vec<Transaction>) -> (r: Result<
    (UtxoSet, u128, Ghost<nat>),
    BlockValidationErr,
>)
    ensures
        match r {
            Ok(t) => {
                &&& validate_txs(txs@, utxo@, 1, Set::empty(), 0) == Ok::<_, BlockValidationErr>(
                    (t.0@, t.2@),
                )
                &&& t.0.wf()
                &&& t.1 as nat == (if t.2@ > u128::MAX as nat {
                    u128::MAX as nat
                } else {
                    t.2@
                })
            },
            Err(e) => validate_txs(txs@, utxo@, 1, Set::empty(), 0) == Err::<
                (Set<Seq<u8>>, nat),
                _,
            >(e),
        },
{
    let ghost utxo0 = utxo@;
    let mut block_spent_set = UtxoSet::new();
    let mut total_fee: u128 = 0;
    let ghost mut exact_fee: nat = 0nat;
    let mut ti: usize = 1;
    while ti < txs.len()
        invariant
            1 <= ti <= txs@.len() || txs@.len() == 0,
            block_spent_set.wf(),
            validate_txs(txs@, utxo0, 1, Set::empty(), 0) == validate_txs(
                txs@,
                utxo0,
                ti as int,
                block_spent_set@,
                exact_fee,
            ),
            total_fee as nat == (if exact_fee > u128::MAX as nat {
                u128::MAX as nat
            } else {
                exact_fee
            }),
        decreases txs@.len() - ti,
    {
        let tx = &txs[ti];
        let ghost spent_before = block_spent_set@;
        let ghost fee_before = exact_fee;
        let mut ii: usize = 0;
        while ii < tx.inputs.len()
            invariant
                ii <= tx.inputs@.len(),
                forall|j: int|
                    0 <= j < ii ==> utxo0.contains(output_hash(#[trigger] tx.inputs@[j]))
                        && !spent_before.contains(output_hash(tx.inputs@[j])),
            decreases tx.inputs@.len() - ii,
        {
            let h = tx.inputs[ii].hash();
            let known = utxo.contains(&h);
            let in_spent = block_spent_set.contains(&h);
            if !known || in_spent {
                proof {
                    let ih = output_hash_set(tx.inputs@);
                    lemma_output_hash_set_contains(tx.inputs@, h@);
                    assert(output_hash(tx.inputs@[ii as int]) == h@);
                    assert(ih.contains(h@));
                    assert(!ih.subset_of(utxo0) || !ih.disjoint(spent_before));
                }
                return Err(BlockValidationErr::InvalidInput);
            }
            ii = ii + 1;
        }
        proof {
            let ih = output_hash_set(tx.inputs@);
            assert forall|x: Seq<u8>| ih.contains(x) implies utxo0.contains(x)
                && !spent_before.contains(x) by {
                lemma_output_hash_set_contains(tx.inputs@, x);
                let j = choose|j: int|
                    0 <= j < tx.inputs@.len() && output_hash(#[trigger] tx.inputs@[j]) == x;
                assert(utxo0.contains(output_hash(tx.inputs@[j])));
            }
            assert(ih.subset_of(utxo0));
            assert(ih.disjoint(spent_before));
        }
        let input_value = sum_outputs_u128(&tx.inputs);
        let output_value = sum_outputs_u128(&tx.outputs);
        if output_value > input_value {
            return Err(BlockValidationErr::InsufficientInputValue);
        }
        let fee = input_value - output_value;
        total_fee = total_fee.saturating_add(fee);
        proof {
            exact_fee = (exact_fee + (fee as nat)) as nat;
        }
        let mut ii2: usize = 0;
        while ii2 < tx.inputs.len()
            invariant
                ii2 <= tx.inputs@.len(),
                block_spent_set.wf(),
                block_spent_set@ == spent_before.union(
                    output_hash_set(tx.inputs@.take(ii2 as int)),
                ),
            decreases tx.inputs@.len() - ii2,
        {
            let h = tx.inputs[ii2].hash();
            block_spent_set.insert(h);
            proof {
                let f = |o: Output| output_hash(o);
                assert(tx.inputs@.take(ii2 + 1).map_values(f) =~= tx.inputs@.take(
                    ii2 as int,
                ).map_values(f).push(output_hash(tx.inputs@[ii2 as int])));
                lemma_to_set_push(
                    tx.inputs@.take(ii2 as int).map_values(f),
                    output_hash(tx.inputs@[ii2 as int]),
                );
                assert(block_spent_set@ =~= spent_before.union(
                    output_hash_set(tx.inputs@.take(ii2 + 1)),
                ));
            }
            ii2 = ii2 + 1;
        }
        proof {
            assert(tx.inputs@.take(tx.inputs@.len() as int) =~= tx.inputs@);
            // one unfolding of validate_txs at position ti
            assert(validate_txs(txs@, utxo0, ti as int, spent_before, fee_before) == validate_txs(
                txs@,
                utxo0,
                ti + 1,
                block_spent_set@,
                exact_fee,
            ));
        }
        ti = ti + 1;
    }
    Ok((block_spent_set, total_fee, Ghost(exact_fee)))
}

/// Add to `utxo` the digest of every output that any transaction of `txs`
/// creates.
#[verifier::loop_isolation(false)]
#[verifier::rlimit(50)]
fn insert_created(utxo: &mut UtxoSet, txs: &Vec<Transaction>)
    requires
        old(utxo).wf(),
    ensures
        final(utxo).wf(),
        final(utxo)@ == old(utxo)@.union(created_from(txs@, 0)),
{
    let ghost target = old(utxo)@.union(created_from(txs@, 0));
    let mut ti: usize = 0;
    while ti < txs.len()
        invariant
            ti <= txs@.len(),
            utxo.wf(),
            utxo@.union(created_from(txs@, ti as int)) == target,
        decreases txs@.len() - ti,
    {
        let tx = &txs[ti];
        let ghost c_rest = created_from(txs@, ti + 1);
        let mut oi: usize = 0;
        proof {
            assert(tx.outputs@.skip(0) =~= tx.outputs@);
            assert(utxo@.union(output_hash_set(tx.outputs@.skip(0))).union(c_rest) =~= utxo@.union(
                created_from(txs@, ti as int),
            ));
        }
        while oi < tx.outputs.len()
            invariant
                oi <= tx.outputs@.len(),
                utxo.wf(),
                utxo@.union(output_hash_set(tx.outputs@.skip(oi as int))).union(c_rest) == target,
            decreases tx.outputs@.len() - oi,
        {
            let h = tx.outputs[oi].hash();
            let ghost before = utxo@;
            utxo.insert(h);
            proof {
                let f = |o: Output| output_hash(o);
                let m = tx.outputs@.skip(oi as int).map_values(f);
                lemma_to_set_head(m);
                assert(m.drop_first() =~= tx.outputs@.skip(oi + 1).map_values(f));
                assert(m[0] == output_hash(tx.outputs@[oi as int]));
                assert(output_hash_set(tx.outputs@.skip(oi as int)) == output_hash_set(
                    tx.outputs@.skip(oi + 1),
                ).insert(h@));
                assert(utxo@.union(output_hash_set(tx.outputs@.skip(oi + 1))).union(c_rest)
                    =~= before.union(output_hash_set(tx.outputs@.skip(oi as int))).union(c_rest));
            }
            oi = oi + 1;
        }
        proof {
            assert(tx.outputs@.skip(tx.outputs@.len() as int) =~= Seq::<Output>::empty());
            assert(output_hash_set(Seq::<Output>::empty()) =~= Set::<Seq<u8>>::empty());
            assert(utxo@.union(created_from(txs@, ti + 1)) =~= utxo@.union(
                output_hash_set(tx.outputs@.skip(tx.outputs@.len() as int)),
            ).union(c_rest));
        }
        ti = ti + 1;
    }
    proof {
        assert(created_from(txs@, txs@.len() as int) =~= Set::<Seq<u8>>::empty());
        assert(utxo@ =~= utxo@.union(created_from(txs@, txs@.len() as int)));
    }
}

} // verus!
