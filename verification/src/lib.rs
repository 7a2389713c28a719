use vstd::prelude::*;

/// The canonical hasher: a shared digest behind a byte-encoding trait.
pub mod hashable;
/// Outputs and transactions: the records the ledger accounts for.
pub mod transaction;
/// The set of digests standing for spendable outputs.
pub mod utxo;
/// Proof-of-work sealed blocks: construction, encoding, mining.
pub mod block;
/// The append-only ledger and its validate-then-commit gate.
pub mod blockchain;

verus! {

pub use crate::hashable::Hashable;
pub use crate::block::Block;
pub use crate::blockchain::Blockchain;
pub use crate::transaction::Transaction;

/// A digest value: a fixed-length sequence of bytes produced by the hasher.
pub type Hash = Vec<u8>;

/// An opaque identifier naming a value recipient.
pub type Address = String;

/// Little-endian byte encoding of a 32-bit unsigned integer.
pub open spec fn u32_le(u: u32) -> Seq<u8> {
    seq![
        ((u >> 0) & 0xff) as u8,
        ((u >> 8) & 0xff) as u8,
        ((u >> 16) & 0xff) as u8,
        ((u >> 24) & 0xff) as u8,
    ]
}

/// Little-endian byte encoding of a 64-bit unsigned integer.
pub open spec fn u64_le(u: u64) -> Seq<u8> {
    seq![
        ((u >> 0) & 0xff) as u8,
        ((u >> 8) & 0xff) as u8,
        ((u >> 16) & 0xff) as u8,
        ((u >> 24) & 0xff) as u8,
        ((u >> 32) & 0xff) as u8,
        ((u >> 40) & 0xff) as u8,
        ((u >> 48) & 0xff) as u8,
        ((u >> 56) & 0xff) as u8,
    ]
}

/// Little-endian byte encoding of a 128-bit unsigned integer.
pub open spec fn u128_le(u: u128) -> Seq<u8> {
    seq![
        ((u >> 0) & 0xff) as u8,
        ((u >> 8) & 0xff) as u8,
        ((u >> 16) & 0xff) as u8,
        ((u >> 24) & 0xff) as u8,
        ((u >> 32) & 0xff) as u8,
        ((u >> 40) & 0xff) as u8,
        ((u >> 48) & 0xff) as u8,
        ((u >> 56) & 0xff) as u8,
        ((u >> 64) & 0xff) as u8,
        ((u >> 72) & 0xff) as u8,
        ((u >> 80) & 0xff) as u8,
        ((u >> 88) & 0xff) as u8,
        ((u >> 96) & 0xff) as u8,
        ((u >> 104) & 0xff) as u8,
        ((u >> 112) & 0xff) as u8,
        ((u >> 120) & 0xff) as u8,
    ]
}

/// The little-endian, fixed-width byte encoding of a 32-bit integer.
pub fn u32_bytes(u: &u32) -> (r: [u8; 4])
    ensures
        r@ == u32_le(*u),
{
    let x = *u;
    proof {
        assert((x >> 0) & 0xff < 256 && (x >> 8) & 0xff < 256 && (x >> 16) & 0xff < 256 && (x
            >> 24) & 0xff < 256) by (bit_vector);
    }
    let r = [
        ((x >> 0) & 0xff) as u8,
        ((x >> 8) & 0xff) as u8,
        ((x >> 16) & 0xff) as u8,
        ((x >> 24) & 0xff) as u8,
    ];
    proof {
        assert(r@ =~= u32_le(x));
    }
    r
}

/// The little-endian, fixed-width byte encoding of a 64-bit integer.
pub fn u64_bytes(u: &u64) -> (r: [u8; 8])
    ensures
        r@ == u64_le(*u),
{
    let x = *u;
    proof {
        assert((x >> 0) & 0xff < 256 && (x >> 8) & 0xff < 256 && (x >> 16) & 0xff < 256 && (x
            >> 24) & 0xff < 256 && (x >> 32) & 0xff < 256 && (x >> 40) & 0xff < 256 && (x >> 48)
            & 0xff < 256 && (x >> 56) & 0xff < 256) by (bit_vector);
    }
    let r = [
        ((x >> 0) & 0xff) as u8,
        ((x >> 8) & 0xff) as u8,
        ((x >> 16) & 0xff) as u8,
        ((x >> 24) & 0xff) as u8,
        ((x >> 32) & 0xff) as u8,
        ((x >> 40) & 0xff) as u8,
        ((x >> 48) & 0xff) as u8,
        ((x >> 56) & 0xff) as u8,
    ];
    proof {
        assert(r@ =~= u64_le(x));
    }
    r
}

/// The little-endian, fixed-width byte encoding of a 128-bit integer.
pub fn u128_bytes(u: &u128) -> (r: [u8; 16])
    ensures
        r@ == u128_le(*u),
{
    let x = *u;
    proof {
        assert((x >> 0) & 0xff < 256 && (x >> 8) & 0xff < 256 && (x >> 16) & 0xff < 256 && (x
            >> 24) & 0xff < 256 && (x >> 32) & 0xff < 256 && (x >> 40) & 0xff < 256 && (x >> 48)
            & 0xff < 256 && (x >> 56) & 0xff < 256 && (x >> 64) & 0xff < 256 && (x >> 72) & 0xff
            < 256 && (x >> 80) & 0xff < 256 && (x >> 88) & 0xff < 256 && (x >> 96) & 0xff < 256
            && (x >> 104) & 0xff < 256 && (x >> 112) & 0xff < 256 && (x >> 120) & 0xff < 256)
            by (bit_vector);
    }
    let r = [
        ((x >> 0) & 0xff) as u8,
        ((x >> 8) & 0xff) as u8,
        ((x >> 16) & 0xff) as u8,
        ((x >> 24) & 0xff) as u8,
        ((x >> 32) & 0xff) as u8,
        ((x >> 40) & 0xff) as u8,
        ((x >> 48) & 0xff) as u8,
        ((x >> 56) & 0xff) as u8,
        ((x >> 64) & 0xff) as u8,
        ((x >> 72) & 0xff) as u8,
        ((x >> 80) & 0xff) as u8,
        ((x >> 88) & 0xff) as u8,
        ((x >> 96) & 0xff) as u8,
        ((x >> 104) & 0xff) as u8,
        ((x >> 112) & 0xff) as u8,
        ((x >> 120) & 0xff) as u8,
    ];
    proof {
        assert(r@ =~= u128_le(x));
    }
    r
}

/// The value of a byte sequence read as a big-endian unsigned integer.
pub open spec fn be_val(s: Seq<u8>) -> nat
    decreases s.len(),
{
    if s.len() == 0 {
        0
    } else {
        (be_val(s.drop_last()) * 256 + s.last()) as nat
    }
}

/// 256 raised to the power `n`.
pub open spec fn pow256(n: nat) -> nat
    decreases n,
{
    if n == 0 {
        1
    } else {
        256 * pow256((n - 1) as nat)
    }
}

/// A sequence of `n` bytes read big-endian is below `256^n`.
pub proof fn lemma_be_val_bound(s: Seq<u8>)
    ensures
        be_val(s) < pow256(s.len()),
    decreases s.len(),
{
    if s.len() == 0 {
    } else {
        lemma_be_val_bound(s.drop_last());
        let p = pow256((s.len() - 1) as nat);
        assert(be_val(s.drop_last()) * 256 + s.last() < p * 256) by (nonlinear_arith)
            requires
                be_val(s.drop_last()) < p,
                s.last() < 256,
        ;
    }
}

/// `pow256` is monotone.
pub proof fn lemma_pow256_increases(m: nat, n: nat)
    requires
        m <= n,
    ensures
        pow256(m) <= pow256(n),
    decreases n,
{
    if m < n {
        lemma_pow256_increases(m, (n - 1) as nat);
        let p = pow256((n - 1) as nat);
        assert(p >= 1) by {
            lemma_pow256_increases(0, (n - 1) as nat);
        }
    }
}

/// The value an accepted hash is measured by: its trailing 16 bytes read as a
/// big-endian 128-bit integer (equivalently, byte-reversed little-endian).
pub fn difficulty_bytes_as_u128(v: &Vec<u8>) -> (r: u128)
    requires
        v@.len() >= 16,
    ensures
        r as nat == be_val(v@.subrange(v@.len() - 16, v@.len() as int)),
{
    let n = v.len();
    let start = n - 16;
    let mut result: u128 = 0;
    let mut i: usize = 0;
    while i < 16
        invariant
            v@.len() >= 16,
            v@.len() <= usize::MAX,
            start == v@.len() - 16,
            i <= 16,
            result as nat == be_val(v@.subrange(start as int, start + i)),
        decreases 16 - i,
    {
        let b = v[start + i];
        proof {
            let win = v@.subrange(start as int, start + i);
            let win1 = v@.subrange(start as int, start + i + 1);
            lemma_be_val_bound(win);
            lemma_pow256_increases(i as nat, 15);
            assert(pow256(16) == 0x100000000000000000000000000000000) by {
                reveal_with_fuel(pow256, 17);
            }
            assert(win1.drop_last() =~= win);
            assert(win1.last() == v@[start + i]);
            assert((result as nat) * 256 + (b as nat) < pow256(15) * 256) by (nonlinear_arith)
                requires
                    (result as nat) < pow256(15),
                    (b as nat) < 256,
            ;
            assert(pow256(15) * 256 == pow256(16));
        }
        result = result * 256 + (b as u128);
        i = i + 1;
    }
    proof {
        assert(v@.subrange(start as int, start + 16) =~= v@.subrange(v@.len() - 16, v@.len() as int));
    }
    result
}

} // verus!
