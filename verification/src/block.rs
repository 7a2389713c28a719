use vstd::prelude::*;
use crate::hashable::{digest_of, Hashable};
use crate::transaction::{concat_bytes, tx_bytes, Transaction};
use crate::{
    be_val, difficulty_bytes_as_u128, u128_bytes, u128_le, u32_bytes, u32_le, u64_bytes, u64_le,
};

verus! {

/// The previous-hash field of a genesis block: 32 zero bytes.
pub open spec fn zero_hash() -> Seq<u8> {
    Seq::new(32, |i: int| 0u8)
}

/// A 32-byte all-zero digest value.
pub fn zero_hash_vec() -> (r: Vec<u8>)
    ensures
        r@ == zero_hash(),
{
    let mut r: Vec<u8> = Vec::new();
    let mut i: usize = 0;
    while i < 32
        invariant
            i <= 32,
            r@ == zero_hash().take(i as int),
        decreases 32 - i,
    {
        r.push(0);
        proof {
            assert(zero_hash().take(i + 1) =~= zero_hash().take(i as int).push(0u8));
        }
        i = i + 1;
    }
    proof {
        assert(zero_hash().take(32) =~= zero_hash());
    }
    r
}

/// Mining failed: the whole nonce search space was exhausted.
#[derive(Debug, PartialEq, Eq, Structural)]
pub enum MiningErr {
    MiningExhausted,
}

/// A proof-of-work sealed container of transactions.
///
/// The stored `hash` field is the producer's claim; validation always
/// recomputes the digest from the block's own bytes.
#[derive(Debug)]
pub struct Block {
    pub index: u32,
    pub timestamp: u128,
    pub hash: crate::Hash,
    pub prev_block_hash: crate::Hash,
    pub nonce: u64,
    pub transactions: Vec<Transaction>,
    pub difficulty: u128,
}

/// The canonical byte encoding of a block: index, timestamp, previous hash,
/// nonce, every transaction's bytes, difficulty. The block's own `hash`
/// field is excluded: it is the output of hashing, not an input.
pub open spec fn block_bytes(b: Block) -> Seq<u8> {
    u32_le(b.index) + u128_le(b.timestamp) + b.prev_block_hash@ + u64_le(b.nonce) + concat_bytes(
        b.transactions@.map_values(|t: Transaction| tx_bytes(t)),
    ) + u128_le(b.difficulty)
}

/// The threshold value of a digest: its trailing 16 bytes read in reversed
/// byte order, i.e. as a big-endian 128-bit integer.
pub open spec fn spec_difficulty_value(h: Seq<u8>) -> nat {
    be_val(h.subrange(h.len() - 16, h.len() as int))
}

/// Whether a digest seals a block at the given difficulty: its threshold
/// value is strictly below the difficulty.
pub open spec fn spec_check_difficulty(h: Seq<u8>, difficulty: u128) -> bool {
    spec_difficulty_value(h) < difficulty
}

/// Whether `hash` satisfies the proof-of-work threshold `difficulty`.
pub fn check_difficulty(hash: &crate::Hash, difficulty: u128) -> (r: bool)
    requires
        hash@.len() >= 16,
    ensures
        r == spec_check_difficulty(hash@, difficulty),
{
    difficulty > difficulty_bytes_as_u128(hash)
}

/// The same block with another nonce; every other field as in `b`.
pub open spec fn with_nonce(b: Block, nonce: u64) -> Block {
    Block { nonce, ..b }
}

impl Block {
    /// A fresh, unmined candidate: hash all zero, nonce zero, no validation.
    pub fn new(
        index: u32,
        timestamp: u128,
        prev_block_hash: crate::Hash,
        transactions: Vec<Transaction>,
        difficulty: u128,
    ) -> (r: Block)
        ensures
            r.index == index,
            r.timestamp == timestamp,
            r.hash@ == zero_hash(),
            r.prev_block_hash == prev_block_hash,
            r.nonce == 0,
            r.transactions == transactions,
            r.difficulty == difficulty,
    {
        Block {
            index,
            timestamp,
            hash: zero_hash_vec(),
            prev_block_hash,
            nonce: 0,
            transactions,
            difficulty,
        }
    }

    /// Search nonces `0, 1, 2, ...` for the first whose recomputed block
    /// digest satisfies the difficulty threshold; on success store that nonce
    /// and digest. The last nonce, `u64::MAX`, is never attempted; if the
    /// search space runs out the block is left on its final attempted nonce
    /// with its hash field untouched.
    pub fn mine(&mut self) -> (r: Result<(), MiningErr>)
        ensures
            final(self).index == old(self).index,
            final(self).timestamp == old(self).timestamp,
            final(self).prev_block_hash == old(self).prev_block_hash,
            final(self).transactions == old(self).transactions,
            final(self).difficulty == old(self).difficulty,
            match r {
                Ok(()) => {
                    &&& spec_check_difficulty(
                        digest_of(block_bytes(*final(self))),
                        final(self).difficulty,
                    )
                    &&& final(self).hash@ == digest_of(block_bytes(*final(self)))
                    &&& forall|m: u64|
                        m < final(self).nonce ==> !spec_check_difficulty(
                            digest_of(block_bytes(with_nonce(*old(self), m))),
                            old(self).difficulty,
                        )
                },
                Err(MiningErr::MiningExhausted) => {
                    &&& final(self).hash == old(self).hash
                    &&& final(self).nonce == u64::MAX - 1
                    &&& forall|m: u64|
                        m < u64::MAX ==> !spec_check_difficulty(
                            digest_of(block_bytes(with_nonce(*old(self), m))),
                            old(self).difficulty,
                        )
                },
            },
    {
        let mut nonce_attempt: u64 = 0;
        while nonce_attempt < u64::MAX
            invariant
                self.index == old(self).index,
                self.timestamp == old(self).timestamp,
                self.hash == old(self).hash,
                self.prev_block_hash == old(self).prev_block_hash,
                self.transactions == old(self).transactions,
                self.difficulty == old(self).difficulty,
                nonce_attempt > 0 ==> self.nonce == nonce_attempt - 1,
                forall|m: u64|
                    m < nonce_attempt ==> !spec_check_difficulty(
                        digest_of(block_bytes(with_nonce(*old(self), m))),
                        old(self).difficulty,
                    ),
            decreases u64::MAX - nonce_attempt,
        {
            self.nonce = nonce_attempt;
            proof {
                assert(*self =~= with_nonce(*old(self), nonce_attempt));
            }
            let hash = self.hash();
            if check_difficulty(&hash, self.difficulty) {
                self.hash = hash;
                return Ok(());
            }
            nonce_attempt = nonce_attempt + 1;
        }
        Err(MiningErr::MiningExhausted)
    }
}

impl Hashable for Block {
    open spec fn spec_bytes(&self) -> Seq<u8> {
        block_bytes(*self)
    }

    fn bytes(&self) -> (r: Vec<u8>)
        ensures
            r@ == self.spec_bytes(),
    {
        let mut bytes: Vec<u8> = Vec::new();
        let ib = u32_bytes(&self.index);
        push_array4(&mut bytes, &ib);
        let tb = u128_bytes(&self.timestamp);
        push_array16(&mut bytes, &tb);
        let mut ph = Vec::new();
        ph.extend_from_slice(self.prev_block_hash.as_slice());
        proof {
            assert(ph@ =~= self.prev_block_hash@);
        }
        bytes.append(&mut ph);
        let nb = u64_bytes(&self.nonce);
        push_array8(&mut bytes, &nb);
        append_transactions_bytes(&mut bytes, &self.transactions);
        let db = u128_bytes(&self.difficulty);
        push_array16(&mut bytes, &db);
        proof {
            assert(bytes@ =~= block_bytes(*self));
        }
        bytes
    }
}

/// Append 4 bytes to `dst`.
fn push_array4(dst: &mut Vec<u8>, src: &[u8; 4])
    ensures
        final(dst)@ == old(dst)@ + src@,
{
    let ghost base = dst@;
    let mut i: usize = 0;
    while i < 4
        invariant
            i <= 4,
            dst@ == base + src@.take(i as int),
        decreases 4 - i,
    {
        dst.push(src[i]);
        proof {
            assert(base + src@.take(i + 1) =~= (base + src@.take(i as int)).push(src@[i as int]));
        }
        i = i + 1;
    }
    proof {
        assert(base + src@.take(4) =~= base + src@);
    }
}

/// Append 8 bytes to `dst`.
fn push_array8(dst: &mut Vec<u8>, src: &[u8; 8])
    ensures
        final(dst)@ == old(dst)@ + src@,
{
    let ghost base = dst@;
    let mut i: usize = 0;
    while i < 8
        invariant
            i <= 8,
            dst@ == base + src@.take(i as int),
        decreases 8 - i,
    {
        dst.push(src[i]);
        proof {
            assert(base + src@.take(i + 1) =~= (base + src@.take(i as int)).push(src@[i as int]));
        }
        i = i + 1;
    }
    proof {
        assert(base + src@.take(8) =~= base + src@);
    }
}

/// Append 16 bytes to `dst`.
fn push_array16(dst: &mut Vec<u8>, src: &[u8; 16])
    ensures
        final(dst)@ == old(dst)@ + src@,
{
    let ghost base = dst@;
    let mut i: usize = 0;
    while i < 16
        invariant
            i <= 16,
            dst@ == base + src@.take(i as int),
        decreases 16 - i,
    {
        dst.push(src[i]);
        proof {
            assert(base + src@.take(i + 1) =~= (base + src@.take(i as int)).push(src@[i as int]));
        }
        i = i + 1;
    }
    proof {
        assert(base + src@.take(16) =~= base + src@);
    }
}

/// Append the concatenated encodings of `txs` to `dst`.
fn append_transactions_bytes(dst: &mut Vec<u8>, txs: &Vec<Transaction>)
    ensures
        final(dst)@ == old(dst)@ + concat_bytes(txs@.map_values(|t: Transaction| tx_bytes(t))),
{
    let ghost base = dst@;
    let ghost f = |t: Transaction| tx_bytes(t);
    proof {
        assert(txs@.take(0).map_values(f) =~= Seq::<Seq<u8>>::empty());
        assert(base + concat_bytes(txs@.take(0).map_values(f)) =~= base);
    }
    let mut i: usize = 0;
    while i < txs.len()
        invariant
            i <= txs@.len(),
            dst@ == base + concat_bytes(txs@.take(i as int).map_values(f)),
            f == (|t: Transaction| tx_bytes(t)),
        decreases txs@.len() - i,
    {
        let mut tb = txs[i].bytes();
        dst.append(&mut tb);
        proof {
            assert(txs@.take(i + 1).map_values(f) =~= txs@.take(i as int).map_values(f).push(
                tx_bytes(txs@[i as int]),
            ));
            assert(txs@.take(i + 1).map_values(f).drop_last() =~= txs@.take(i as int).map_values(
                f,
            ));
        }
        i = i + 1;
    }
    proof {
        assert(txs@.take(txs@.len() as int) =~= txs@);
    }
}

} // verus!
