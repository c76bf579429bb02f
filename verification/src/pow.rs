//! Proof of work: a deterministic nonce search over a block's canonical
//! textual serialization. The difficulty is the number of leading zero bits
//! the digest must show, counted from the most significant bit of the first
//! byte. The search is bounded by an explicit nonce ceiling and reports
//! exhaustion instead of diverging on an unreachable difficulty.

use vstd::prelude::*;

use crate::block::Block;
use crate::hashing::calculate_hash;
use crate::hashing::hash_input_ok;
use crate::hashing::sha256_of;
use crate::text::arr_to_string;
use crate::text::dec_int;
use crate::text::dec_nat;
use crate::text::i32_to_string;
use crate::text::join_commas;
use crate::text::join_with_commas;
use crate::text::lemma_dec_int_len_i32;
use crate::text::lemma_dec_nat_len_u64;
use crate::text::u64_to_string;

verus! {

/// Whether the bit at the given position of a byte is zero, counting from
/// the most significant bit.
pub open spec fn bit_is_zero(byte: u8, j: u8) -> bool {
    byte & (0x80u8 >> j) == 0
}

/// Whether a digest has at least the given number of leading zero bits. A
/// difficulty beyond the digest's bit count is unmeetable.
pub open spec fn meets_difficulty(d: Seq<u8>, k: int) -> bool {
    k <= 8 * d.len() && forall|i: int| 0 <= i < k ==> bit_is_zero(#[trigger] d[i / 8], (i % 8) as u8)
}

/// The canonical textual serialization mined over: index, owner characters,
/// timestamp, transactions joined by commas, and the nonce, concatenated.
pub open spec fn pow_input(b: Block, nonce: u64) -> Seq<char> {
    dec_int(b.index as int) + b.owner@ + dec_int(b.timestamp as int) + join_commas(
        b.transactions.deep_view(),
    ) + dec_nat(nonce as nat)
}

/// A block whose joined transaction list stays far enough below the hash
/// engine's input limit that every serialization is hashable.
pub open spec fn pow_searchable(b: Block) -> bool {
    join_commas(b.transactions.deep_view()).len() < 0x0400_0000_0000_0000
}

proof fn lemma_pow_input_len(b: Block, nonce: u64)
    requires
        pow_searchable(b),
    ensures
        hash_input_ok(pow_input(b, nonce)),
{
    lemma_dec_int_len_i32(b.index as int);
    lemma_dec_int_len_i32(b.timestamp as int);
    lemma_dec_nat_len_u64(nonce as nat);
}

/// The outcome of a bounded nonce search: the first satisfying nonce with
/// its digest, or exhaustion of the nonce ceiling.
pub enum PowOutcome {
    Found { nonce: u64, digest: Vec<u8> },
    Exhausted,
}

/// What `solve_proof` promises of its outcome: a found nonce is the least
/// nonce from one up whose digest meets the difficulty, within the ceiling;
/// exhaustion means no nonce up to the ceiling meets it.
pub open spec fn pow_outcome_ok(b: Block, difficulty: i32, max_nonce: u64, r: PowOutcome) -> bool {
    match r {
        PowOutcome::Found { nonce, digest } => 1 <= nonce <= max_nonce && digest@ == sha256_of(
            pow_input(b, nonce),
        ) && meets_difficulty(digest@, difficulty as int) && forall|m: u64|
            1 <= m < nonce ==> !meets_difficulty(
                sha256_of(pow_input(b, m)),
                difficulty as int,
            ),
        PowOutcome::Exhausted => forall|m: u64|
            1 <= m <= max_nonce ==> !meets_difficulty(
                sha256_of(pow_input(b, m)),
                difficulty as int,
            ),
    }
}

fn check_difficulty(digest: &Vec<u8>, difficulty: i32) -> (r: bool)
    ensures
        r == meets_difficulty(digest@, difficulty as int),
{
    if difficulty <= 0 {
        return true;
    }
    let k = difficulty as u32;
    let len = digest.len();
    if (k as u64 + 7) / 8 > len as u64 {
        proof {
            vstd::arithmetic::div_mod::lemma_fundamental_div_mod(k as int + 7, 8);
            vstd::arithmetic::div_mod::lemma_mod_bound(k as int + 7, 8);
            assert((k as int + 7) / 8 == (k as u64 + 7) as int / 8);
            assert((k as int + 7) / 8 > digest@.len());
            assert(k as int > 8 * digest@.len());
        }
        return false;
    }
    proof {
        vstd::arithmetic::div_mod::lemma_fundamental_div_mod(k as int + 7, 8);
        vstd::arithmetic::div_mod::lemma_mod_bound(k as int + 7, 8);
        assert(k as int <= 8 * digest@.len());
    }
    let mut i: u32 = 0;
    while i < k
        invariant
            i <= k,
            difficulty > 0,
            k == difficulty as u32,
            k as int <= 8 * digest@.len(),
            digest@.len() <= usize::MAX,
            forall|t: int| 0 <= t < i ==> bit_is_zero(#[trigger] digest@[t / 8], (t % 8) as u8),
        decreases k - i,
    {
        proof {
            vstd::arithmetic::div_mod::lemma_fundamental_div_mod(i as int, 8);
            vstd::arithmetic::div_mod::lemma_mod_bound(i as int, 8);
            assert(i as int / 8 < digest@.len());
        }
        let idx = (i / 8) as usize;
        let j = (i % 8) as u8;
        let byte = digest[idx];
        if byte & (0x80u8 >> j) != 0 {
            proof {
                assert(!bit_is_zero(digest@[i as int / 8], (i as int % 8) as u8));
            }
            return false;
        }
        i += 1;
    }
    true
}

/// The proof-of-work search state: the block being mined and the required
/// number of leading zero bits.
pub struct Pow {
    pub block: Block,
    pub difficulty: i32,
}

impl Pow {
    /// Pairs a block with a difficulty target.
    pub fn new(block: Block, difficulty: i32) -> (r: Pow)
        ensures
            r.block == block,
            r.difficulty == difficulty,
    {
        Pow { block, difficulty }
    }

    /// The digest of one candidate serialization.
    pub fn hash(&self, input: String) -> (r: Vec<u8>)
        requires
            hash_input_ok(input@),
        ensures
            r@ == sha256_of(input@),
            r@.len() == 32,
    {
        calculate_hash(input)
    }

    /// The canonical textual serialization of a block under a candidate
    /// nonce.
    pub fn serialize_input(block: &Block, nonce: u64) -> (r: String)
        ensures
            r@ == pow_input(*block, nonce),
    {
        let mut s = i32_to_string(block.index);
        let owner = arr_to_string(block.owner.as_slice());
        s.append(owner.as_str());
        let ts = i32_to_string(block.timestamp);
        s.append(ts.as_str());
        let txs = join_with_commas(&block.transactions);
        s.append(txs.as_str());
        let n = u64_to_string(nonce);
        s.append(n.as_str());
        s
    }

    /// Searches nonces from one up to the ceiling for the first whose digest
    /// meets the difficulty. Returns that nonce with its digest, or reports
    /// the search exhausted; it never runs unbounded.
    pub fn solve_proof(&self, max_nonce: u64) -> (r: PowOutcome)
        requires
            pow_searchable(self.block),
        ensures
            pow_outcome_ok(self.block, self.difficulty, max_nonce, r),
    {
        let mut nonce: u64 = 0;
        while nonce < max_nonce
            invariant
                pow_searchable(self.block),
                nonce <= max_nonce,
                forall|m: u64|
                    1 <= m <= nonce ==> !meets_difficulty(
                        sha256_of(pow_input(self.block, m)),
                        self.difficulty as int,
                    ),
            decreases max_nonce - nonce,
        {
            nonce = nonce + 1;
            let input_data = Self::serialize_input(&self.block, nonce);
            proof {
                lemma_pow_input_len(self.block, nonce);
            }
            let hash = self.hash(input_data);
            if check_difficulty(&hash, self.difficulty) {
                return PowOutcome::Found { nonce, digest: hash };
            }
        }
        PowOutcome::Exhausted
    }
}

/// Law: with difficulty zero the empty bit prefix matches every digest, so a
/// search with any room at all returns the very first nonce, one.
pub proof fn lemma_zero_difficulty_first_nonce(b: Block, max_nonce: u64, r: PowOutcome)
    requires
        max_nonce >= 1,
        pow_outcome_ok(b, 0, max_nonce, r),
    ensures
        r matches PowOutcome::Found { nonce, .. } && nonce == 1,
{
    assert(meets_difficulty(sha256_of(pow_input(b, 1)), 0));
    match r {
        PowOutcome::Found { nonce, digest } => {
            if nonce > 1 {
                assert(!meets_difficulty(sha256_of(pow_input(b, 1)), 0));
            }
        },
        PowOutcome::Exhausted => {
            assert(!meets_difficulty(sha256_of(pow_input(b, 1)), 0));
        },
    }
}

/// Law: the search is deterministic. Any two outcomes that meet the search's
/// contract for the same block, difficulty and ceiling agree: both exhausted,
/// or found with the same nonce and the same digest.
pub proof fn lemma_solve_deterministic(
    b: Block,
    difficulty: i32,
    max_nonce: u64,
    r1: PowOutcome,
    r2: PowOutcome,
)
    requires
        pow_outcome_ok(b, difficulty, max_nonce, r1),
        pow_outcome_ok(b, difficulty, max_nonce, r2),
    ensures
        match (r1, r2) {
            (
                PowOutcome::Found { nonce: n1, digest: d1 },
                PowOutcome::Found { nonce: n2, digest: d2 },
            ) => n1 == n2 && d1@ == d2@,
            (PowOutcome::Exhausted, PowOutcome::Exhausted) => true,
            _ => false,
        },
{
    match (r1, r2) {
        (
            PowOutcome::Found { nonce: n1, digest: d1 },
            PowOutcome::Found { nonce: n2, digest: d2 },
        ) => {
            if n1 < n2 {
                assert(!meets_difficulty(sha256_of(pow_input(b, n1)), difficulty as int));
            }
            if n2 < n1 {
                assert(!meets_difficulty(sha256_of(pow_input(b, n2)), difficulty as int));
            }
        },
        (PowOutcome::Found { nonce: n1, digest: d1 }, PowOutcome::Exhausted) => {
            assert(!meets_difficulty(sha256_of(pow_input(b, n1)), difficulty as int));
        },
        (PowOutcome::Exhausted, PowOutcome::Found { nonce: n2, digest: d2 }) => {
            assert(!meets_difficulty(sha256_of(pow_input(b, n2)), difficulty as int));
        },
        (PowOutcome::Exhausted, PowOutcome::Exhausted) => {
        },
    }
}

/// Law: a difficulty of eight leading zero bits forces the digest's first
/// byte to be exactly zero.
pub proof fn lemma_one_zero_byte(d: Seq<u8>)
    requires
        meets_difficulty(d, 8),
        d.len() >= 1,
    ensures
        d[0] == 0,
{
    let b = d[0];
    assert(bit_is_zero(b, 0) && bit_is_zero(b, 1) && bit_is_zero(b, 2) && bit_is_zero(b, 3)
        && bit_is_zero(b, 4) && bit_is_zero(b, 5) && bit_is_zero(b, 6) && bit_is_zero(b, 7)) by {
        assert(bit_is_zero(d[0int / 8], (0int % 8) as u8));
        assert(bit_is_zero(d[1int / 8], (1int % 8) as u8));
        assert(bit_is_zero(d[2int / 8], (2int % 8) as u8));
        assert(bit_is_zero(d[3int / 8], (3int % 8) as u8));
        assert(bit_is_zero(d[4int / 8], (4int % 8) as u8));
        assert(bit_is_zero(d[5int / 8], (5int % 8) as u8));
        assert(bit_is_zero(d[6int / 8], (6int % 8) as u8));
        assert(bit_is_zero(d[7int / 8], (7int % 8) as u8));
    }
    assert((b & (0x80u8 >> 0u8) == 0 && b & (0x80u8 >> 1u8) == 0 && b & (0x80u8 >> 2u8) == 0 && b
        & (0x80u8 >> 3u8) == 0 && b & (0x80u8 >> 4u8) == 0 && b & (0x80u8 >> 5u8) == 0 && b & (
    0x80u8 >> 6u8) == 0 && b & (0x80u8 >> 7u8) == 0) ==> b == 0) by (bit_vector);
}

} // verus!
