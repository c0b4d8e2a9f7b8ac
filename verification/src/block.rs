//! Blocks: a header hashed over its textual serialization, mined by
//! searching nonces until the hash carries the difficulty's zero prefix.

use vstd::prelude::*;
use vstd::string::StrSliceExecFns;
use vstd::string::StringExecFns;
use vstd::utf8::encode_utf8;

use crate::ambient::now_string;
use crate::crypto::{sha256, sha256_of};
use crate::errors::{CoreError, CoreResult};
use crate::merkle::{merkle_root_of, MerkleTree};
use crate::text::{hex_encode, hex_of, str_eq, u64_dec_of, u64_to_string};
use crate::transaction::{tx_views, Transaction, TxView};

verus! {

/// The mathematical image of a block header.
pub struct HeaderView {
    pub index: u64,
    pub timestamp: Seq<char>,
    pub previous_hash: Seq<char>,
    pub merkle_root: Seq<char>,
    pub nonce: u64,
    pub difficulty: u32,
}

/// What a block's hash covers.
#[derive(Debug)]
pub struct BlockHeader {
    pub index: u64,
    pub timestamp: String,
    pub previous_hash: String,
    pub merkle_root: String,
    pub nonce: u64,
    pub difficulty: u32,
}

impl View for BlockHeader {
    type V = HeaderView;

    open spec fn view(&self) -> HeaderView {
        HeaderView {
            index: self.index,
            timestamp: self.timestamp@,
            previous_hash: self.previous_hash@,
            merkle_root: self.merkle_root@,
            nonce: self.nonce,
            difficulty: self.difficulty,
        }
    }
}

/// The mathematical image of a block.
pub struct BlockView {
    pub header: HeaderView,
    pub hash: Seq<char>,
    pub transactions: Seq<TxView>,
}

/// One block: header, its hash, and the transactions it carries.
#[derive(Debug)]
pub struct Block {
    pub header: BlockHeader,
    pub hash: String,
    pub transactions: Vec<Transaction>,
}

impl View for Block {
    type V = BlockView;

    open spec fn view(&self) -> BlockView {
        BlockView {
            header: self.header@,
            hash: self.hash@,
            transactions: tx_views(self.transactions@),
        }
    }
}

/// The views of a sequence of blocks, in order.
pub open spec fn block_views(s: Seq<Block>) -> Seq<BlockView> {
    Seq::new(s.len(), |i: int| s[i]@)
}

/// The textual serialization a block hash covers: the header fields laid
/// end to end.
pub open spec fn header_string_of(h: HeaderView) -> Seq<char> {
    u64_dec_of(h.index as nat) + h.timestamp + h.previous_hash + h.merkle_root + u64_dec_of(
        h.nonce as nat,
    ) + u64_dec_of(h.difficulty as nat)
}

/// The hash of a header: hex of SHA-256 of its serialization.
pub open spec fn block_hash_of(h: HeaderView) -> Seq<char> {
    hex_of(sha256_of(encode_utf8(header_string_of(h))))
}

/// Whether a hash carries the required count of leading zero characters.
pub open spec fn zero_prefixed(h: Seq<char>, d: nat) -> bool {
    d <= h.len() && forall|i: int| 0 <= i < d ==> h[i] == '0'
}

/// A block is valid when its stored hash is the hash of its header and
/// carries the difficulty's zero prefix.
pub open spec fn block_valid(b: BlockView) -> bool {
    b.hash == block_hash_of(b.header) && zero_prefixed(b.hash, b.header.difficulty as nat)
}

/// Whether a header misses its difficulty target at a given nonce.
pub open spec fn nonce_fails(h: HeaderView, n: u64) -> bool {
    !zero_prefixed(block_hash_of(HeaderView { nonce: n, ..h }), h.difficulty as nat)
}

/// Whether no nonce at all satisfies a header's difficulty target.
pub open spec fn no_nonce_satisfies(h: HeaderView) -> bool {
    forall|n: u64| nonce_fails(h, n)
}

/// Checks the zero-prefix condition on a hash string.
#[verifier::loop_isolation(false)]
fn has_zero_prefix(s: &str, d: u32) -> (r: bool)
    ensures
        r == zero_prefixed(s@, d as nat),
{
    let dd = d as usize;
    if dd > s.unicode_len() {
        return false;
    }
    let mut i: usize = 0;
    while i < dd
        invariant
            i <= dd,
            dd == d,
            dd <= s@.len(),
            forall|j: int| 0 <= j < i ==> s@[j] == '0',
        decreases dd - i,
    {
        if s.get_char(i) != '0' {
            return false;
        }
        i += 1;
    }
    true
}

impl Block {
    /// Assembles an unmined block over the given transactions, stamping
    /// the present instant and computing the Merkle root.
    pub fn new(
        index: u64,
        previous_hash: String,
        transactions: Vec<Transaction>,
        difficulty: u32,
    ) -> (b: Block)
        ensures
            b@.header.index == index,
            b@.header.previous_hash == previous_hash@,
            b@.header.merkle_root == merkle_root_of(tx_views(transactions@)),
            b@.header.nonce == 0,
            b@.header.difficulty == difficulty,
            b@.transactions == tx_views(transactions@),
            b@.hash == block_hash_of(b@.header),
    {
        let merkle_root = MerkleTree::root(transactions.as_slice());
        let header = BlockHeader {
            index,
            timestamp: now_string(),
            previous_hash,
            merkle_root,
            nonce: 0,
            difficulty,
        };
        let hash = Self::calculate_hash(&header);
        Block { header, hash, transactions }
    }

    /// The genesis block: index zero, a zero previous hash, no
    /// transactions, difficulty one.
    pub fn genesis() -> (b: Block)
        ensures
            b@.header.index == 0,
            b@.header.previous_hash == Seq::new(64, |i: int| '0'),
            b@.header.merkle_root == merkle_root_of(Seq::<TxView>::empty()),
            b@.header.nonce == 0,
            b@.header.difficulty == 1,
            b@.transactions == Seq::<TxView>::empty(),
            b@.hash == block_hash_of(b@.header),
    {
        let mut zeros = String::new();
        let mut i: usize = 0;
        while i < 64
            invariant
                i <= 64,
                zeros@ =~= Seq::new(i as nat, |k: int| '0'),
            decreases 64 - i,
        {
            crate::text::string_push(&mut zeros, '0');
            proof {
                assert(zeros@ =~= Seq::new((i + 1) as nat, |k: int| '0'));
            }
            i += 1;
        }
        let empty: Vec<Transaction> = Vec::new();
        let b = Self::new(0, zeros, empty, 1);
        proof {
            assert(tx_views(Seq::<Transaction>::empty()) =~= Seq::<TxView>::empty());
        }
        b
    }

    /// Searches nonces upward from the current one until the header hash
    /// carries the zero prefix; the timestamp is never re-stamped. The
    /// found nonce is the smallest satisfying one at or after the start;
    /// failure means no nonce from the start onward satisfies the prefix.
    #[verifier::loop_isolation(false)]
    pub fn mine(&mut self) -> (r: CoreResult<()>)
        ensures
            final(self).header.index == old(self).header.index,
            final(self).header@.timestamp == old(self).header@.timestamp,
            final(self).header@.previous_hash == old(self).header@.previous_hash,
            final(self).header@.merkle_root == old(self).header@.merkle_root,
            final(self).header.difficulty == old(self).header.difficulty,
            final(self)@.transactions == old(self)@.transactions,
            final(self).header.nonce >= old(self).header.nonce,
            forall|n: u64|
                old(self).header.nonce <= n < final(self).header.nonce ==> nonce_fails(
                    old(self).header@,
                    n,
                ),
            r matches Ok(_) ==> block_valid(final(self)@),
            r matches Err(e) ==> e matches CoreError::MiningError(_) && (forall|n: u64|
                n >= old(self).header.nonce ==> nonce_fails(old(self).header@, n)),
    {
        loop
            invariant
                self.header.index == old(self).header.index,
                self.header@.timestamp == old(self).header@.timestamp,
                self.header@.previous_hash == old(self).header@.previous_hash,
                self.header@.merkle_root == old(self).header@.merkle_root,
                self.header.difficulty == old(self).header.difficulty,
                self@.transactions == old(self)@.transactions,
                self.header.nonce >= old(self).header.nonce,
                forall|n: u64|
                    old(self).header.nonce <= n < self.header.nonce ==> nonce_fails(
                        old(self).header@,
                        n,
                    ),
            decreases u64::MAX - self.header.nonce,
        {
            proof {
                assert(self.header@ == (HeaderView {
                    nonce: self.header.nonce,
                    ..old(self).header@
                }));
            }
            let hash = Self::calculate_hash(&self.header);
            if has_zero_prefix(hash.as_str(), self.header.difficulty) {
                self.hash = hash;
                return Ok(());
            }
            if self.header.nonce == u64::MAX {
                proof {
                    assert forall|n: u64| n >= old(self).header.nonce implies nonce_fails(
                        old(self).header@,
                        n,
                    ) by {
                        if n < u64::MAX {
                        } else {
                            assert(n == self.header.nonce);
                        }
                    }
                }
                return Err(
                    CoreError::MiningError(String::from_str("nonce space exhausted")),
                );
            }
            self.header.nonce = self.header.nonce + 1;
        }
    }

    /// The hash of a header: hex of SHA-256 of the header fields laid end
    /// to end in their textual form.
    pub fn calculate_hash(header: &BlockHeader) -> (r: String)
        ensures
            r@ == block_hash_of(header@),
    {
        let mut s = u64_to_string(header.index);
        s.append(header.timestamp.as_str());
        s.append(header.previous_hash.as_str());
        s.append(header.merkle_root.as_str());
        let nonce_s = u64_to_string(header.nonce);
        s.append(nonce_s.as_str());
        let difficulty_s = u64_to_string(header.difficulty as u64);
        s.append(difficulty_s.as_str());
        proof {
            assert(s@ =~= header_string_of(header@));
        }
        let digest = sha256(s.as_str().as_bytes());
        hex_encode(digest.as_slice())
    }

    /// Recomputes the hash and checks it against the stored one and the
    /// zero-prefix condition.
    pub fn is_valid(&self) -> (r: bool)
        ensures
            r == block_valid(self@),
    {
        let target = Self::calculate_hash(&self.header);
        let same = str_eq(target.as_str(), self.hash.as_str());
        same && has_zero_prefix(self.hash.as_str(), self.header.difficulty)
    }
}

/// Copies a vector of transactions, view for view.
pub fn copy_transactions(v: &Vec<Transaction>) -> (r: Vec<Transaction>)
    ensures
        tx_views(r@) == tx_views(v@),
        r@.len() == v@.len(),
{
    let n = v.len();
    let mut r: Vec<Transaction> = Vec::new();
    let mut i: usize = 0;
    while i < n
        invariant
            n == v@.len(),
            i <= n,
            r@.len() == i,
            forall|k: int| 0 <= k < i ==> (#[trigger] r@[k])@ == v@[k]@,
        decreases n - i,
    {
        let t = v[i].clone();
        r.push(t);
        i += 1;
    }
    proof {
        assert(tx_views(r@) =~= tx_views(v@));
    }
    r
}

/// Copies a vector of blocks, view for view.
pub fn copy_blocks(v: &Vec<Block>) -> (r: Vec<Block>)
    ensures
        block_views(r@) == block_views(v@),
{
    let n = v.len();
    let mut r: Vec<Block> = Vec::new();
    let mut i: usize = 0;
    while i < n
        invariant
            n == v@.len(),
            i <= n,
            r@.len() == i,
            forall|k: int| 0 <= k < i ==> (#[trigger] r@[k])@ == v@[k]@,
        decreases n - i,
    {
        let b = v[i].clone();
        r.push(b);
        i += 1;
    }
    proof {
        assert(block_views(r@) =~= block_views(v@));
    }
    r
}

impl Clone for Block {
    /// A clone carries the same view.
    fn clone(&self) -> (res: Self)
        ensures
            res@ == self@,
    {
        let res = Block {
            header: BlockHeader {
                index: self.header.index,
                timestamp: self.header.timestamp.clone(),
                previous_hash: self.header.previous_hash.clone(),
                merkle_root: self.header.merkle_root.clone(),
                nonce: self.header.nonce,
                difficulty: self.header.difficulty,
            },
            hash: self.hash.clone(),
            transactions: copy_transactions(&self.transactions),
        };
        res
    }
}

} // verus!
