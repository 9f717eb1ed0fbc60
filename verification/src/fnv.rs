use vstd::prelude::*;

verus! {

/// FNV-1a 64-bit offset basis: the hash of the empty input.
pub const FNV_OFFSET_BASIS: u64 = 0xcbf2_9ce4_8422_2325;

/// FNV-1a 64-bit prime.
pub const FNV_PRIME: u64 = 0x0000_0100_0000_01b3;

/// One FNV-1a round: xor the byte in, then multiply modulo 2^64.
pub open spec fn fnv_step(hash: u64, byte: u8) -> u64 {
    (hash ^ (byte as u64)).wrapping_mul(FNV_PRIME)
}

/// The FNV-1a state after feeding `bytes`, in order, into `hash`.
pub open spec fn fnv_fold(hash: u64, bytes: Seq<u8>) -> u64
    decreases bytes.len(),
{
    if bytes.len() == 0 {
        hash
    } else {
        fnv_step(fnv_fold(hash, bytes.drop_last()), bytes.last())
    }
}

/// FNV-1a 64 — deterministic across processes and machines.
pub fn fnv1a64(bytes: &[u8]) -> (hash: u64)
    ensures
        hash == fnv_fold(FNV_OFFSET_BASIS, bytes@),
{
    fnv1a64_continue(FNV_OFFSET_BASIS, bytes)
}

/// Streaming FNV-1a: continue a running hash with more bytes.
pub fn fnv1a64_continue(previous: u64, bytes: &[u8]) -> (hash: u64)
    ensures
        hash == fnv_fold(previous, bytes@),
{
    let mut hash = previous;
    let mut index: usize = 0;
    while index < bytes.len()
        invariant
            index <= bytes@.len(),
            hash == fnv_fold(previous, bytes@.take(index as int)),
        decreases bytes@.len() - index,
    {
        let byte = bytes[index];
        proof {
            assert(bytes@.take(index as int + 1).drop_last() =~= bytes@.take(index as int));
            assert(bytes@.take(index as int + 1).last() == byte);
        }
        hash = (hash ^ (byte as u64)).wrapping_mul(FNV_PRIME);
        index = index + 1;
    }
    proof {
        assert(bytes@.take(bytes@.len() as int) =~= bytes@);
    }
    hash
}

/// Feeding `first` and then `second` is the same as feeding their
/// concatenation.
pub proof fn lemma_fnv_fold_append(hash: u64, first: Seq<u8>, second: Seq<u8>)
    ensures
        fnv_fold(fnv_fold(hash, first), second) == fnv_fold(hash, first + second),
    decreases second.len(),
{
    if second.len() == 0 {
        assert(first + second =~= first);
    } else {
        lemma_fnv_fold_append(hash, first, second.drop_last());
        assert((first + second).drop_last() =~= first + second.drop_last());
        assert((first + second).last() == second.last());
    }
}

/// Streaming law: continuing the hash of `first` with `second` gives the
/// hash of the whole input, so a running hash can advance one appended
/// line at a time without re-reading what came before.
pub proof fn law_fnv_continue_matches_whole(first: Seq<u8>, second: Seq<u8>)
    ensures
        fnv_fold(fnv_fold(FNV_OFFSET_BASIS, first), second) == fnv_fold(
            FNV_OFFSET_BASIS,
            first + second,
        ),
{
    lemma_fnv_fold_append(FNV_OFFSET_BASIS, first, second);
}

} // verus!
