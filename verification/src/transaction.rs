use vstd::prelude::*;
use crate::hashable::{digest_of, Hashable};
use crate::utxo::{lemma_to_set_push, UtxoSet};
use crate::{u64_bytes, u64_le, Address};

verus! {

/// The UTF-8 bytes of a string, a function of its characters alone.
pub uninterp spec fn utf8_of(s: Seq<char>) -> Seq<u8>;

/// Relies on str::as_bytes: the UTF-8 encoding of the string's characters.
#[verifier::external_body]
fn str_bytes(s: &String) -> (r: Vec<u8>)
    ensures
        r@ == utf8_of(s@),
{
    s.as_bytes().to_vec()
}

/// A value-transfer record: `value` units credited to `receiver`.
#[derive(Clone, Debug)]
pub struct Output {
    pub receiver: Address,
    pub value: u64,
}

/// The canonical byte encoding of an output: the receiver's text bytes
/// followed by the value, little-endian.
pub open spec fn output_bytes(o: Output) -> Seq<u8> {
    utf8_of(o.receiver@) + u64_le(o.value)
}

/// The digest identifying an output for UTXO bookkeeping.
pub open spec fn output_hash(o: Output) -> Seq<u8> {
    digest_of(output_bytes(o))
}

/// The set of digests of a list of outputs.
pub open spec fn output_hash_set(s: Seq<Output>) -> Set<Seq<u8>> {
    s.map_values(|o: Output| output_hash(o)).to_set()
}

/// What it means for a digest to lie in the hash set of a list of outputs.
pub proof fn lemma_output_hash_set_contains(s: Seq<Output>, x: Seq<u8>)
    ensures
        output_hash_set(s).contains(x) <==> exists|j: int|
            0 <= j < s.len() && output_hash(#[trigger] s[j]) == x,
{
    let m = s.map_values(|o: Output| output_hash(o));
    if output_hash_set(s).contains(x) {
        let i = choose|i: int| 0 <= i < m.len() && m[i] == x;
        assert(output_hash(s[i]) == x);
    }
    if exists|j: int| 0 <= j < s.len() && output_hash(#[trigger] s[j]) == x {
        let j = choose|j: int| 0 <= j < s.len() && output_hash(#[trigger] s[j]) == x;
        assert(m[j] == x);
        assert(m.contains(x));
    }
}

/// The total value carried by a list of outputs.
pub open spec fn sum_values(s: Seq<Output>) -> nat
    decreases s.len(),
{
    if s.len() == 0 {
        0
    } else {
        (sum_values(s.drop_last()) + s.last().value) as nat
    }
}

/// Extending a list of outputs by one adds that output's value to the total.
pub proof fn lemma_sum_take_step(s: Seq<Output>, i: int)
    requires
        0 <= i < s.len(),
    ensures
        sum_values(s.take(i + 1)) == sum_values(s.take(i)) + s[i].value,
{
    assert(s.take(i + 1).drop_last() =~= s.take(i));
    assert(s.take(i + 1).last() == s[i]);
}

/// The total value of a prefix never exceeds the total of the whole list.
pub proof fn lemma_sum_prefix(s: Seq<Output>, i: int)
    requires
        0 <= i <= s.len(),
    ensures
        sum_values(s.take(i)) <= sum_values(s),
    decreases s.len(),
{
    if i == s.len() {
        assert(s.take(i) =~= s);
    } else {
        assert(s.drop_last().take(i) =~= s.take(i));
        lemma_sum_prefix(s.drop_last(), i);
    }
}

/// The total value of `n` outputs is at most `n` times the largest value.
pub proof fn lemma_sum_bound(s: Seq<Output>)
    ensures
        sum_values(s) <= s.len() * (u64::MAX as nat),
    decreases s.len(),
{
    if s.len() > 0 {
        lemma_sum_bound(s.drop_last());
        let n = s.len() as nat;
        let m = u64::MAX as nat;
        assert((n - 1) * m + m == n * m) by (nonlinear_arith);
    }
}

/// The total value of a list of outputs, computed exactly in 128 bits.
///
/// A list is bounded by the address space, so the total of 64-bit values
/// always fits: no overflow and no panic.
pub(crate) fn sum_outputs_u128(outs: &Vec<Output>) -> (r: u128)
    ensures
        r as nat == sum_values(outs@),
        sum_values(outs@) <= (u64::MAX as nat) * (u64::MAX as nat),
{
    let n = outs.len();
    proof {
        lemma_sum_bound(outs@);
        assert(outs@.len() * (u64::MAX as nat) <= (u64::MAX as nat) * (u64::MAX as nat))
            by (nonlinear_arith)
            requires
                outs@.len() <= u64::MAX as nat,
        ;
    }
    let mut acc: u128 = 0;
    let mut i: usize = 0;
    while i < n
        invariant
            n == outs@.len(),
            i <= n,
            acc as nat == sum_values(outs@.take(i as int)),
            sum_values(outs@) <= (u64::MAX as nat) * (u64::MAX as nat),
        decreases n - i,
    {
        proof {
            lemma_sum_take_step(outs@, i as int);
            lemma_sum_prefix(outs@, i + 1);
        }
        acc = acc + (outs[i].value as u128);
        i = i + 1;
    }
    proof {
        assert(outs@.take(n as int) =~= outs@);
    }
    acc
}

/// An ordered pair of output lists: what a transaction consumes and what it
/// creates. A transaction with no inputs is a coinbase transaction.
#[derive(Debug)]
pub struct Transaction {
    pub inputs: Vec<Output>,
    pub outputs: Vec<Output>,
}

impl Transaction {
    /// The total value consumed by the transaction's inputs. The caller
    /// keeps the total within 64 bits; the ledger itself sums in 128 bits
    /// and never calls this.
    pub fn input_value(&self) -> (r: u64)
        requires
            sum_values(self.inputs@) <= u64::MAX,
        ensures
            r == sum_values(self.inputs@),
    {
        let s = sum_outputs_u128(&self.inputs);
        s as u64
    }

    /// The total value created by the transaction's outputs. The caller
    /// keeps the total within 64 bits; the ledger itself sums in 128 bits
    /// and never calls this.
    pub fn output_value(&self) -> (r: u64)
        requires
            sum_values(self.outputs@) <= u64::MAX,
        ensures
            r == sum_values(self.outputs@),
    {
        let s = sum_outputs_u128(&self.outputs);
        s as u64
    }

    /// The set of digests of the transaction's inputs; duplicates collapse.
    pub fn input_hashes(&self) -> (r: UtxoSet)
        ensures
            r@ == output_hash_set(self.inputs@),
            r.wf(),
    {
        hash_set_of(&self.inputs)
    }

    /// The set of digests of the transaction's outputs; duplicates collapse.
    pub fn output_hashes(&self) -> (r: UtxoSet)
        ensures
            r@ == output_hash_set(self.outputs@),
            r.wf(),
    {
        hash_set_of(&self.outputs)
    }

    /// Whether this is a coinbase transaction: one with no inputs.
    pub fn is_coinbase(&self) -> (r: bool)
        ensures
            r == (self.inputs@.len() == 0),
    {
        self.inputs.len() == 0
    }
}

/// The set of digests of the given outputs.
fn hash_set_of(outs: &Vec<Output>) -> (r: UtxoSet)
    ensures
        r@ == output_hash_set(outs@),
        r.wf(),
{
    let mut r = UtxoSet::new();
    proof {
        assert(outs@.take(0).map_values(|o: Output| output_hash(o)) =~= Seq::<Seq<u8>>::empty());
        assert(output_hash_set(outs@.take(0)) =~= Set::<Seq<u8>>::empty());
    }
    let mut i: usize = 0;
    while i < outs.len()
        invariant
            i <= outs@.len(),
            r@ == output_hash_set(outs@.take(i as int)),
            r.wf(),
        decreases outs@.len() - i,
    {
        let h = outs[i].hash();
        proof {
            let f = |o: Output| output_hash(o);
            assert(outs@.take(i + 1).map_values(f) =~= outs@.take(i as int).map_values(f).push(
                output_hash(outs@[i as int]),
            ));
            lemma_to_set_push(outs@.take(i as int).map_values(f), output_hash(outs@[i as int]));
        }
        r.insert(h);
        i = i + 1;
    }
    proof {
        assert(outs@.take(outs@.len() as int) =~= outs@);
    }
    r
}

impl Hashable for Output {
    open spec fn spec_bytes(&self) -> Seq<u8> {
        output_bytes(*self)
    }

    fn bytes(&self) -> (r: Vec<u8>)
        ensures
            r@ == self.spec_bytes(),
    {
        let mut bytes = str_bytes(&self.receiver);
        let vb = u64_bytes(&self.value);
        let mut i: usize = 0;
        while i < 8
            invariant
                vb@ == u64_le(self.value),
                i <= 8,
                bytes@ == utf8_of(self.receiver@) + vb@.take(i as int),
            decreases 8 - i,
        {
            bytes.push(vb[i]);
            proof {
                assert(utf8_of(self.receiver@) + vb@.take(i + 1) =~= (utf8_of(self.receiver@)
                    + vb@.take(i as int)).push(vb@[i as int]));
            }
            i = i + 1;
        }
        proof {
            assert(vb@.take(8) =~= vb@);
        }
        bytes
    }
}

/// The concatenation of a list of byte strings, in order, with no delimiters.
pub open spec fn concat_bytes(s: Seq<Seq<u8>>) -> Seq<u8>
    decreases s.len(),
{
    if s.len() == 0 {
        Seq::empty()
    } else {
        concat_bytes(s.drop_last()) + s.last()
    }
}

/// The canonical byte encoding of a transaction: every input's bytes, then
/// every output's bytes, with positional (not self-describing) boundaries.
pub open spec fn tx_bytes(t: Transaction) -> Seq<u8> {
    concat_bytes(t.inputs@.map_values(|o: Output| output_bytes(o))) + concat_bytes(
        t.outputs@.map_values(|o: Output| output_bytes(o)),
    )
}

/// Append the concatenated encodings of `outs` to `dst`.
pub(crate) fn append_outputs_bytes(dst: &mut Vec<u8>, outs: &Vec<Output>)
    ensures
        final(dst)@ == old(dst)@ + concat_bytes(outs@.map_values(|o: Output| output_bytes(o))),
{
    let ghost base = dst@;
    let ghost f = |o: Output| output_bytes(o);
    proof {
        assert(outs@.take(0).map_values(f) =~= Seq::<Seq<u8>>::empty());
        assert(base + concat_bytes(outs@.take(0).map_values(f)) =~= base);
    }
    let mut i: usize = 0;
    while i < outs.len()
        invariant
            i <= outs@.len(),
            dst@ == base + concat_bytes(outs@.take(i as int).map_values(f)),
            f == (|o: Output| output_bytes(o)),
        decreases outs@.len() - i,
    {
        let mut ob = outs[i].bytes();
        dst.append(&mut ob);
        proof {
            assert(outs@.take(i + 1).map_values(f) =~= outs@.take(i as int).map_values(f).push(
                output_bytes(outs@[i as int]),
            ));
            assert(outs@.take(i + 1).map_values(f).drop_last() =~= outs@.take(i as int).map_values(
                f,
            ));
        }
        i = i + 1;
    }
    proof {
        assert(outs@.take(outs@.len() as int) =~= outs@);
    }
}

impl Hashable for Transaction {
    open spec fn spec_bytes(&self) -> Seq<u8> {
        tx_bytes(*self)
    }

    fn bytes(&self) -> (r: Vec<u8>)
        ensures
            r@ == self.spec_bytes(),
    {
        let mut bytes: Vec<u8> = Vec::new();
        append_outputs_bytes(&mut bytes, &self.inputs);
        append_outputs_bytes(&mut bytes, &self.outputs);
        proof {
            assert(Seq::<u8>::empty() + concat_bytes(
                self.inputs@.map_values(|o: Output| output_bytes(o)),
            ) =~= concat_bytes(self.inputs@.map_values(|o: Output| output_bytes(o))));
        }
        bytes
    }
}

} // verus!
