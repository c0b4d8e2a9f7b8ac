//! The Merkle root over a sequence of transactions: content hashes reduced
//! pairwise, duplicating the last hash of an odd level, down to one root.

use vstd::prelude::*;
use vstd::string::StrSliceExecFns;
use vstd::string::StringExecFns;
use vstd::utf8::encode_utf8;

use crate::crypto::{sha256, sha256_of};
use crate::text::{hex_encode, hex_of};
use crate::transaction::{tx_hash_of, tx_views, Transaction, TxView};

verus! {

/// The hash of two hex digests laid end to end.
pub open spec fn pair_hash_of(left: Seq<char>, right: Seq<char>) -> Seq<char> {
    hex_of(sha256_of(encode_utf8(left + right)))
}

/// One reduction level: an odd count duplicates its last hash, then pairs
/// are hashed left to right.
pub open spec fn merkle_level_of(hashes: Seq<Seq<char>>) -> Seq<Seq<char>> {
    let padded = if hashes.len() % 2 != 0 {
        hashes.push(hashes.last())
    } else {
        hashes
    };
    Seq::new(padded.len() / 2, |i: int| pair_hash_of(padded[2 * i], padded[2 * i + 1]))
}

/// Reduces hash levels until one hash remains.
pub open spec fn merkle_fold(hashes: Seq<Seq<char>>) -> Seq<char>
    recommends
        hashes.len() >= 1,
    decreases hashes.len(),
{
    if hashes.len() <= 1 {
        hashes[0]
    } else {
        merkle_fold(merkle_level_of(hashes))
    }
}

/// The Merkle root of a transaction sequence: the fold of the content
/// hashes, or the hash of nothing at all when the sequence is empty.
pub open spec fn merkle_root_of(txs: Seq<TxView>) -> Seq<char> {
    if txs.len() == 0 {
        pair_hash_of(Seq::empty(), Seq::empty())
    } else {
        merkle_fold(Seq::new(txs.len(), |i: int| tx_hash_of(txs[i])))
    }
}

/// The root is a pure function of the transaction sequence: equal
/// sequences give equal roots.
pub proof fn lemma_merkle_root_deterministic(a: Seq<TxView>, b: Seq<TxView>)
    requires
        a == b,
    ensures
        merkle_root_of(a) == merkle_root_of(b),
{
}

/// The views of a vector of hash strings.
pub open spec fn str_views(s: Seq<String>) -> Seq<Seq<char>> {
    Seq::new(s.len(), |i: int| s[i]@)
}

/// Computes Merkle roots over transaction sequences.
pub struct MerkleTree;

impl MerkleTree {
    /// Hashes two hex digests laid end to end.
    fn hash_pair(left: &str, right: &str) -> (r: String)
        ensures
            r@ == pair_hash_of(left@, right@),
    {
        let mut s = String::from_str(left);
        s.append(right);
        let digest = sha256(s.as_str().as_bytes());
        hex_encode(digest.as_slice())
    }

    /// The root hash over the transactions, in their order.
    #[verifier::loop_isolation(false)]
    pub fn root(transactions: &[Transaction]) -> (r: String)
        ensures
            r@ == merkle_root_of(tx_views(transactions@)),
    {
        let n = transactions.len();
        if n == 0 {
            proof {
                reveal_strlit("");
                assert(""@ =~= Seq::<char>::empty());
            }
            return Self::hash_pair("", "");
        }
        let mut hashes: Vec<String> = Vec::new();
        let mut i: usize = 0;
        while i < n
            invariant
                i <= n,
                hashes@.len() == i,
                forall|k: int|
                    0 <= k < i ==> (#[trigger] hashes@[k])@ == tx_hash_of(transactions@[k]@),
            decreases n - i,
        {
            let h = transactions[i].hash();
            hashes.push(h);
            i += 1;
        }
        let ghost initial = str_views(hashes@);
        proof {
            assert(initial =~= Seq::new(
                tx_views(transactions@).len(),
                |i: int| tx_hash_of(tx_views(transactions@)[i]),
            ));
        }
        while hashes.len() > 1
            invariant
                hashes@.len() >= 1,
                merkle_fold(str_views(hashes@)) == merkle_fold(initial),
            decreases hashes@.len(),
        {
            let ghost orig = str_views(hashes@);
            if hashes.len() % 2 != 0 {
                let last = hashes[hashes.len() - 1].clone();
                hashes.push(last);
                proof {
                    assert(str_views(hashes@) =~= (if orig.len() % 2 != 0 {
                        orig.push(orig.last())
                    } else {
                        orig
                    }));
                }
            }
            let hlen = hashes.len();
            let mut next: Vec<String> = Vec::new();
            let mut j: usize = 0;
            while j < hlen
                invariant
                    j % 2 == 0,
                    j <= hlen,
                    hlen == hashes@.len(),
                    hlen % 2 == 0,
                    next@.len() == j / 2,
                    forall|k: int|
                        0 <= k < j / 2 ==> (#[trigger] next@[k])@ == pair_hash_of(
                            hashes@[2 * k]@,
                            hashes@[2 * k + 1]@,
                        ),
                decreases hlen - j,
            {
                let p = Self::hash_pair(hashes[j].as_str(), hashes[j + 1].as_str());
                next.push(p);
                j += 2;
            }
            proof {
                assert(str_views(next@) =~= merkle_level_of(orig));
            }
            hashes = next;
        }
        proof {
            assert(merkle_fold(str_views(hashes@)) == str_views(hashes@)[0]);
        }
        let r = hashes[0].clone();
        r
    }
}

} // verus!
