//! The Merkle tree: a bottom-up pairwise hash reduction of an ordered
//! transaction list to a single root digest text. Each leaf is the hex text
//! of the digest of one transaction; each round concatenates neighbouring
//! texts, hashes them, and encodes the digest again; an unpaired final
//! element is combined with itself.

use vstd::prelude::*;

use crate::block::Block;
use crate::codec::HashtoString;
use crate::codec::hex_of;
use crate::errors::SizeError;
use crate::hashing::calculate_hash;
use crate::hashing::hash_input_ok;
use crate::hashing::sha256_of;

verus! {

/// The leaf text of one transaction: the hex text of its digest.
pub open spec fn leaf_hash(tx: Seq<char>) -> Seq<char> {
    hex_of(sha256_of(tx))
}

/// The combined text of two neighbouring texts: their concatenation hashed
/// and encoded again.
pub open spec fn combine_two(l: Seq<char>, r: Seq<char>) -> Seq<char> {
    hex_of(sha256_of(l + r))
}

/// One reduction round: the level walked left to right in non-overlapping
/// pairs; an unpaired final element is combined with itself.
pub open spec fn combine_level(level: Seq<Seq<char>>) -> Seq<Seq<char>> {
    Seq::new(
        (level.len() + 1) / 2,
        |j: int|
            combine_two(
                level[2 * j],
                if 2 * j + 1 < level.len() {
                    level[2 * j + 1]
                } else {
                    level[2 * j]
                },
            ),
    )
}

/// Reduction rounds applied until one element remains.
pub open spec fn reduce_levels(level: Seq<Seq<char>>) -> Seq<Seq<char>>
    decreases level.len(),
{
    if level.len() <= 1 {
        level
    } else {
        reduce_levels(combine_level(level))
    }
}

/// The leaf level of a transaction list, in input order.
pub open spec fn leaves_of(txs: Seq<Seq<char>>) -> Seq<Seq<char>> {
    Seq::new(txs.len(), |i: int| leaf_hash(txs[i]))
}

/// What `build_tree` leaves in the tree: the empty level for an empty
/// transaction list, otherwise the fully reduced leaf level.
pub open spec fn built_tree(txs: Seq<Seq<char>>) -> Seq<Seq<char>> {
    if txs.len() == 0 {
        Seq::empty()
    } else {
        reduce_levels(leaves_of(txs))
    }
}

/// The transaction lengths the hash engine accepts (see `hash_input_ok`).
pub open spec fn transactions_hashable(txs: Seq<Seq<char>>) -> bool {
    forall|i: int| 0 <= i < txs.len() ==> hash_input_ok(#[trigger] txs[i])
}

/// The Merkle tree of one block's transaction list. The tree field starts as
/// an empty built level and becomes the reduced tree, or a structural error,
/// after `build_tree`.
pub struct MerkleTree {
    pub block: Block,
    pub transactions: Vec<String>,
    pub tree: Result<Vec<String>, SizeError>,
}

impl MerkleTree {
    /// Snapshots the block's transaction list; the tree starts unbuilt.
    pub fn new(block: Block) -> (r: MerkleTree)
        ensures
            r.block == block,
            r.transactions.deep_view() == block.transactions.deep_view(),
            r.tree matches Ok(t) && t@.len() == 0,
    {
        let block_transactions: Vec<String> = block.transactions.clone();
        MerkleTree { block, transactions: block_transactions, tree: Ok(Vec::new()) }
    }

    /// The built tree, or the structural error the build ran into.
    pub fn get_tree(&self) -> (r: Result<&Vec<String>, &SizeError>)
        ensures
            r is Ok <==> self.tree is Ok,
            r matches Ok(t) ==> self.tree matches Ok(t0) && t@ == t0@,
            r matches Err(e) ==> self.tree matches Err(e0) && e.msg@ == e0.msg@,
    {
        match &self.tree {
            Ok(tree) => Ok(tree),
            Err(err) => Err(err),
        }
    }

    /// Encodes a digest as hex text; lossless for every digest.
    pub fn hash_to_string(&self, hash: Vec<u8>) -> (r: String)
        ensures
            r@ == hex_of(hash@),
            r@.len() == 2 * hash@.len(),
    {
        proof {
            crate::codec::lemma_hex_of_len(hash@);
        }
        let converter: HashtoString = HashtoString::new(hash);
        converter.get_string()
    }

    /// The digest of one transaction.
    pub fn hash_transaction(&self, transaction: String) -> (r: Vec<u8>)
        requires
            hash_input_ok(transaction@),
        ensures
            r@ == sha256_of(transaction@),
            r@.len() == 32,
    {
        calculate_hash(transaction)
    }

    /// The digest of two digests' hex texts concatenated as text.
    pub fn combine_hashes(&self, left: Vec<u8>, right: Vec<u8>) -> (r: Vec<u8>)
        requires
            left@.len() + right@.len() < 0x0100_0000_0000_0000,
        ensures
            r@ == sha256_of(hex_of(left@) + hex_of(right@)),
            r@.len() == 32,
    {
        proof {
            crate::codec::lemma_hex_of_len(left@);
            crate::codec::lemma_hex_of_len(right@);
        }
        let left_converter: HashtoString = HashtoString::new(left);
        let left_string: String = left_converter.get_string();
        let right_converter: HashtoString = HashtoString::new(right);
        let right_string: String = right_converter.get_string();
        let combined: String = left_string.concat(right_string.as_str());
        calculate_hash(combined)
    }

    /// One reduction round over a level. Returns the structural size error
    /// exactly when the level is empty; otherwise the combined level, whose
    /// length is the half rounded up.
    pub fn combine_pairs(&self, pairs: Vec<String>) -> (r: Result<Vec<String>, SizeError>)
        requires
            forall|i: int|
                0 <= i < pairs@.len() ==> (#[trigger] pairs.deep_view()[i]).len()
                    < 0x0200_0000_0000_0000,
        ensures
            r is Ok <==> pairs@.len() > 0,
            r matches Ok(v) ==> v.deep_view() == combine_level(pairs.deep_view()) && v@.len() == (
            pairs@.len() + 1) / 2,
            r matches Ok(v) ==> forall|k: int|
                0 <= k < v@.len() ==> (#[trigger] v.deep_view()[k]).len() == 64,
            r matches Err(e) ==> e.msg@ == "length of pairs must be greater than 0"@,
    {
        let mut result: Vec<String> = Vec::new();
        if pairs.len() == 0 {
            return Err(SizeError::new("length of pairs must be greater than 0"));
        }
        let half = pairs.len() / 2 + pairs.len() % 2;
        let mut j: usize = 0;
        while j < half
            invariant
                pairs@.len() >= 1,
                pairs@.len() <= usize::MAX,
                half == (pairs@.len() + 1) / 2,
                j <= half,
                pairs.deep_view().len() == pairs@.len(),
                forall|i: int|
                    0 <= i < pairs@.len() ==> (#[trigger] pairs.deep_view()[i]).len()
                        < 0x0200_0000_0000_0000,
                result@.len() == j,
                forall|k: int|
                    0 <= k < j ==> #[trigger] result.deep_view()[k] == combine_level(
                        pairs.deep_view(),
                    )[k],
                forall|k: int| 0 <= k < j ==> (#[trigger] result.deep_view()[k]).len() == 64,
            decreases half - j,
        {
            proof {
                vstd::arithmetic::div_mod::lemma_fundamental_div_mod(pairs@.len() as int + 1, 2);
                vstd::arithmetic::div_mod::lemma_mod_bound(pairs@.len() as int + 1, 2);
                assert(2 * (j as int) <= pairs@.len() - 1);
            }
            let i = 2 * j;
            let left: String = pairs[i].clone();
            let right: String = if i + 1 < pairs.len() {
                pairs[i + 1].clone()
            } else {
                left.clone()
            };
            proof {
                assert(left@ == pairs.deep_view()[i as int]);
                assert(i + 1 < pairs@.len() ==> right@ == pairs.deep_view()[i + 1]);
            }
            let combined_str: String = left.concat(right.as_str());
            let combined_hash: Vec<u8> = calculate_hash(combined_str);
            let done: String = self.hash_to_string(combined_hash);
            let ghost prev = result.deep_view();
            result.push(done);
            proof {
                assert(result.deep_view() =~= prev.push(done@));
                assert(done@ == combine_level(pairs.deep_view())[j as int]);
            }
            j += 1;
        }
        proof {
            assert(result.deep_view() =~= combine_level(pairs.deep_view()));
        }
        Ok(result)
    }

    /// Builds the tree: hashes each transaction into a leaf, then reduces
    /// level by level until one element remains. An empty transaction list
    /// yields an empty built level, which blocks root extraction.
    pub fn build_tree(&mut self)
        requires
            transactions_hashable(old(self).transactions.deep_view()),
        ensures
            final(self).block == old(self).block,
            final(self).transactions == old(self).transactions,
            final(self).tree matches Ok(t) && t.deep_view() == built_tree(
                old(self).transactions.deep_view(),
            ),
            old(self).transactions@.len() > 0 ==> (final(self).tree matches Ok(t) && t@.len()
                == 1),
    {
        let ghost txs = self.transactions.deep_view();
        if self.transactions.len() == 0 {
            self.tree = Ok(Vec::new());
            return ;
        }
        let mut current: Vec<String> = Vec::new();
        let mut i: usize = 0;
        while i < self.transactions.len()
            invariant
                *self == *old(self),
                txs == self.transactions.deep_view(),
                transactions_hashable(txs),
                i <= self.transactions@.len(),
                current@.len() == i,
                forall|k: int| 0 <= k < i ==> #[trigger] current.deep_view()[k] == leaf_hash(
                    txs[k],
                ),
                forall|k: int| 0 <= k < i ==> (#[trigger] current.deep_view()[k]).len() == 64,
            decreases self.transactions@.len() - i,
        {
            let tx: String = self.transactions[i].clone();
            proof {
                assert(tx@ == txs[i as int]);
            }
            let hash: Vec<u8> = self.hash_transaction(tx);
            let leaf: String = self.hash_to_string(hash);
            let ghost prev = current.deep_view();
            current.push(leaf);
            proof {
                assert(current.deep_view() =~= prev.push(leaf@));
            }
            i += 1;
        }
        proof {
            assert(current.deep_view() =~= leaves_of(txs));
        }
        while current.len() > 1
            invariant
                *self == *old(self),
                txs == self.transactions.deep_view(),
                txs.len() > 0,
                current@.len() >= 1,
                forall|k: int|
                    0 <= k < current@.len() ==> (#[trigger] current.deep_view()[k]).len() == 64,
                reduce_levels(current.deep_view()) == reduce_levels(leaves_of(txs)),
            decreases current@.len(),
        {
            let ghost before = current.deep_view();
            match self.combine_pairs(current) {
                Ok(new_tree) => {
                    proof {
                        assert(reduce_levels(before) == reduce_levels(combine_level(before)));
                    }
                    current = new_tree;
                },
                Err(err) => {
                    proof {
                        assert(false);
                    }
                    self.tree = Err(err);
                    return ;
                },
            }
        }
        proof {
            assert(reduce_levels(current.deep_view()) == current.deep_view());
        }
        self.tree = Ok(current);
    }

    /// The Merkle root: the single element of the built tree. Returns a
    /// structural size error when the tree is empty, and passes the original
    /// error through when the build itself failed.
    pub fn calculate_root(&self) -> (r: Result<String, SizeError>)
        ensures
            match self.tree {
                Ok(t) => if t@.len() > 0 {
                    r matches Ok(root) && root@ == t.deep_view()[0]
                } else {
                    r matches Err(e) && e.msg@
                        == "Merkle tree cannot be empty when trying to calculate Merkle Root"@
                },
                Err(e0) => r matches Err(e) && e.msg@ == e0.msg@,
            },
    {
        match self.get_tree() {
            Ok(tree) => {
                if tree.len() == 0 {
                    Err(
                        SizeError::new(
                            "Merkle tree cannot be empty when trying to calculate Merkle Root",
                        ),
                    )
                } else {
                    Ok(tree[0].clone())
                }
            },
            Err(err) => Err(*err),
        }
    }
}

/// Law: a single-transaction list builds to exactly its leaf text, the hex
/// text of the transaction's digest.
pub proof fn lemma_single_transaction_root(txs: Seq<Seq<char>>)
    requires
        txs.len() == 1,
    ensures
        built_tree(txs) == seq![leaf_hash(txs[0])],
{
    assert(leaves_of(txs) =~= seq![leaf_hash(txs[0])]);
    assert(built_tree(txs) =~= seq![leaf_hash(txs[0])]);
}

/// Law: an empty transaction list builds to an empty level, so no root can
/// ever be taken from it.
pub proof fn lemma_empty_transactions_no_root(txs: Seq<Seq<char>>)
    requires
        txs.len() == 0,
    ensures
        built_tree(txs).len() == 0,
{
}

/// Two to the given power.
pub open spec fn two_to(k: nat) -> nat
    decreases k,
{
    if k == 0 {
        1nat
    } else {
        2 * two_to((k - 1) as nat)
    }
}

/// The number of reduction rounds a level of the given length takes: none
/// for a single element, one more than its combined level takes otherwise.
pub open spec fn reduction_rounds(n: nat) -> nat
    decreases n,
{
    if n <= 1 {
        0nat
    } else {
        1 + reduction_rounds((n + 1) / 2)
    }
}

/// The level after a given number of reduction rounds.
pub open spec fn iterate_combine(level: Seq<Seq<char>>, k: nat) -> Seq<Seq<char>>
    decreases k,
{
    if k == 0 {
        level
    } else {
        iterate_combine(combine_level(level), (k - 1) as nat)
    }
}

/// Law: building from n >= 1 leaves takes exactly reduction_rounds(n)
/// reduction rounds. That many rounds reach the built tree and leave exactly
/// one element; every smaller number of rounds leaves more than one. The two
/// bounds over two_to state that reduction_rounds(n) is the base-two ceiling
/// logarithm of n.
pub proof fn lemma_reduction_round_count(level: Seq<Seq<char>>)
    requires
        level.len() >= 1,
    ensures
        iterate_combine(level, reduction_rounds(level.len())) == reduce_levels(level),
        iterate_combine(level, reduction_rounds(level.len())).len() == 1,
        forall|k: nat| k < reduction_rounds(level.len()) ==> iterate_combine(level, k).len() > 1,
        level.len() <= two_to(reduction_rounds(level.len())),
        reduction_rounds(level.len()) >= 1 ==> two_to(
            (reduction_rounds(level.len()) - 1) as nat,
        ) < level.len(),
    decreases level.len(),
{
    let n = level.len();
    let r = reduction_rounds(n);
    if n == 1 {
        assert(iterate_combine(level, 0) == level);
    } else {
        let next = combine_level(level);
        let m = next.len();
        assert(m == (n + 1) / 2);
        assert(1 <= m < n);
        lemma_reduction_round_count(next);
        let r2 = reduction_rounds(m);
        assert(r == r2 + 1);
        assert(iterate_combine(level, r) == iterate_combine(next, r2));
        assert(reduce_levels(level) == reduce_levels(next));
        assert forall|k: nat| k < r implies iterate_combine(level, k).len() > 1 by {
            if k == 0 {
                assert(iterate_combine(level, 0) == level);
            } else {
                assert(iterate_combine(level, k) == iterate_combine(next, (k - 1) as nat));
                assert(((k - 1) as nat) < r2);
            }
        }
        assert(n <= 2 * m);
        assert(m <= two_to(r2));
        assert(two_to(r) == 2 * two_to(r2));
        if r2 == 0 {
            assert(two_to((r - 1) as nat) == 1);
        } else {
            assert(two_to((r2 - 1) as nat) < m);
            assert(two_to(r2) <= 2 * m - 2);
            assert(2 * m <= n + 1);
        }
    }
}

/// Law: a reduction round over a level of odd length combines the final
/// unpaired element with itself.
pub proof fn lemma_combine_level_last_odd(level: Seq<Seq<char>>)
    requires
        level.len() % 2 == 1,
    ensures
        combine_level(level).len() >= 1,
        combine_level(level).last() == combine_two(level.last(), level.last()),
{
    let n = level.len() as int;
    let j = (n - 1) / 2;
    assert(2 * j == n - 1);
    assert(combine_level(level)[j] == combine_two(level[n - 1], level[n - 1]));
}

} // verus!
