//! The chain and state engine: the linear chain of blocks, the mempool,
//! proof-of-work assembly of new blocks, chain validation, longest-chain
//! replacement, and the deterministic replay of transfers into world state.

use vstd::prelude::*;
use vstd::string::StringExecFns;

use crate::block::{block_valid, block_views, no_nonce_satisfies, Block, BlockView, HeaderView};
use crate::errors::{CoreError, CoreResult};
use crate::state::{balance_in, nonce_in, transfer_applied, AccountState, WorldState};
use crate::text::str_eq;
use crate::transaction::{tx_views, verify_ok, Transaction, TransactionType, TxView};

verus! {

/// What a credit leaves of the account map: the recipient's balance grows
/// by the amount, the account appearing first if absent.
pub open spec fn credited_m(
    m: Map<Seq<char>, AccountState>,
    k: Seq<char>,
    amount: u64,
) -> Map<Seq<char>, AccountState> {
    m.insert(
        k,
        AccountState {
            balance: (balance_in(m, k) + amount) as u64,
            nonce: nonce_in(m, k),
        },
    )
}

/// What one transfer transaction does to the account map: a system sender
/// mints the amount to the recipient; any other sender moves it, or does
/// nothing when the balance is short.
pub open spec fn apply_tx(m: Map<Seq<char>, AccountState>, tx: TxView) -> Map<
    Seq<char>,
    AccountState,
> {
    if tx.tx_type == TransactionType::Transfer {
        if tx.sender == "system"@ {
            credited_m(m, tx.recipient, tx.amount)
        } else {
            transfer_applied(m, tx.sender, tx.recipient, tx.amount)
        }
    } else {
        m
    }
}

/// Whether applying a transaction keeps every balance and nonce in range.
pub open spec fn apply_tx_ok(m: Map<Seq<char>, AccountState>, tx: TxView) -> bool {
    if tx.tx_type == TransactionType::Transfer {
        if tx.sender == "system"@ {
            balance_in(m, tx.recipient) + tx.amount <= u64::MAX
        } else {
            balance_in(m, tx.sender) >= tx.amount ==> (nonce_in(m, tx.sender) < u64::MAX && (
            tx.sender == tx.recipient || balance_in(m, tx.recipient) + tx.amount <= u64::MAX))
        }
    } else {
        true
    }
}

/// The account map after replaying transactions in order.
pub open spec fn replay_txs(m: Map<Seq<char>, AccountState>, txs: Seq<TxView>) -> Map<
    Seq<char>,
    AccountState,
>
    decreases txs.len(),
{
    if txs.len() == 0 {
        m
    } else {
        replay_txs(apply_tx(m, txs.first()), txs.drop_first())
    }
}

/// Whether the whole replay keeps every balance and nonce in range.
pub open spec fn replay_txs_ok(m: Map<Seq<char>, AccountState>, txs: Seq<TxView>) -> bool
    decreases txs.len(),
{
    if txs.len() == 0 {
        true
    } else {
        apply_tx_ok(m, txs.first()) && replay_txs_ok(apply_tx(m, txs.first()), txs.drop_first())
    }
}

/// Replaying one more transaction applies it to the replayed map.
pub proof fn lemma_replay_snoc(m: Map<Seq<char>, AccountState>, txs: Seq<TxView>, t: TxView)
    ensures
        replay_txs(m, txs.push(t)) == apply_tx(replay_txs(m, txs), t),
        replay_txs_ok(m, txs.push(t)) <==> (replay_txs_ok(m, txs) && apply_tx_ok(
            replay_txs(m, txs),
            t,
        )),
    decreases txs.len(),
{
    if txs.len() == 0 {
        assert(txs.push(t).first() == t);
        assert(txs.push(t).drop_first() =~= Seq::<TxView>::empty());
        assert(replay_txs(m, txs) == m);
        assert(replay_txs_ok(m, txs));
        assert(replay_txs(apply_tx(m, t), txs.push(t).drop_first()) == apply_tx(m, t));
        assert(replay_txs_ok(apply_tx(m, t), txs.push(t).drop_first()));
    } else {
        let m2 = apply_tx(m, txs.first());
        assert(txs.push(t).first() == txs.first());
        assert(txs.push(t).drop_first() =~= txs.drop_first().push(t));
        lemma_replay_snoc(m2, txs.drop_first(), t);
        assert(replay_txs(m, txs.push(t)) == replay_txs(m2, txs.drop_first().push(t)));
        assert(replay_txs(m, txs) == replay_txs(m2, txs.drop_first()));
        assert(replay_txs_ok(m, txs.push(t)) == (apply_tx_ok(m, txs.first()) && replay_txs_ok(
            m2,
            txs.drop_first().push(t),
        )));
        assert(replay_txs_ok(m, txs) == (apply_tx_ok(m, txs.first()) && replay_txs_ok(
            m2,
            txs.drop_first(),
        )));
    }
}

/// A replay that stays in range stays in range at each of its steps.
pub proof fn lemma_replay_ok_at(m: Map<Seq<char>, AccountState>, txs: Seq<TxView>, i: int)
    requires
        replay_txs_ok(m, txs),
        0 <= i < txs.len(),
    ensures
        apply_tx_ok(replay_txs(m, txs.take(i)), txs[i]),
    decreases i,
{
    if i == 0 {
        assert(txs.take(0) =~= Seq::<TxView>::empty());
    } else {
        let m2 = apply_tx(m, txs.first());
        lemma_replay_ok_at(m2, txs.drop_first(), i - 1);
        assert(txs.drop_first().take(i - 1) =~= txs.take(i).drop_first());
        assert(txs.take(i).first() == txs.first());
        assert(txs.drop_first()[i - 1] == txs[i]);
    }
}

/// Applying a transaction reads only its sender, recipient, amount and
/// type.
pub proof fn lemma_apply_tx_congruent(m: Map<Seq<char>, AccountState>, a: TxView, b: TxView)
    requires
        a.sender == b.sender,
        a.recipient == b.recipient,
        a.amount == b.amount,
        a.tx_type == b.tx_type,
    ensures
        apply_tx(m, a) == apply_tx(m, b),
        apply_tx_ok(m, a) == apply_tx_ok(m, b),
{
}

/// What one transaction mints: a system transfer creates its amount out
/// of nothing; everything else creates nothing.
pub open spec fn mint_of(tx: TxView) -> int {
    if tx.tx_type == TransactionType::Transfer && tx.sender == "system"@ {
        tx.amount as int
    } else {
        0
    }
}

/// The total newly minted supply across a transaction sequence.
pub open spec fn minted(txs: Seq<TxView>) -> int
    decreases txs.len(),
{
    if txs.len() == 0 {
        0
    } else {
        minted(txs.drop_last()) + mint_of(txs.last())
    }
}

/// A chain is valid when each block past the genesis is valid in itself
/// and references the hash of the block before it.
pub open spec fn chain_valid(c: Seq<BlockView>) -> bool {
    forall|i: int|
        1 <= i < c.len() ==> block_valid(#[trigger] c[i]) && c[i].header.previous_hash == c[i
            - 1].hash
}

/// All transactions carried by a chain, block by block in order.
pub open spec fn chain_txs(c: Seq<BlockView>) -> Seq<TxView>
    decreases c.len(),
{
    if c.len() == 0 {
        Seq::empty()
    } else {
        c.first().transactions + chain_txs(c.drop_first())
    }
}

/// Extending a chain by a block appends that block's transactions.
pub proof fn lemma_chain_txs_snoc(c: Seq<BlockView>, b: BlockView)
    ensures
        chain_txs(c.push(b)) =~= chain_txs(c) + b.transactions,
    decreases c.len(),
{
    if c.len() == 0 {
        assert(c.push(b).first() == b);
        assert(c.push(b).drop_first() =~= Seq::<BlockView>::empty());
        assert(chain_txs(c.push(b).drop_first()) =~= Seq::<TxView>::empty());
        assert(chain_txs(c) =~= Seq::<TxView>::empty());
    } else {
        assert(c.push(b).first() == c.first());
        assert(c.push(b).drop_first() =~= c.drop_first().push(b));
        lemma_chain_txs_snoc(c.drop_first(), b);
        assert(chain_txs(c.push(b)) =~= c.first().transactions + chain_txs(
            c.drop_first().push(b),
        ));
        assert(chain_txs(c) == c.first().transactions + chain_txs(c.drop_first()));
    }
}

/// The reward transaction's effect, as a view: a system transfer of the
/// mining reward to the miner.
pub open spec fn coinbase_view(recipient: Seq<char>, amount: u64) -> TxView {
    TxView {
        id: Seq::empty(),
        sender: "system"@,
        recipient,
        amount,
        data: Seq::empty(),
        tx_type: TransactionType::Transfer,
        timestamp: Seq::empty(),
        signature: None,
        public_key: None,
    }
}

/// Whether the mempool admits a transaction: the system sender outright;
/// anyone else with a verified signature and, for a transfer, a balance
/// covering the amount.
pub open spec fn admissible(tx: TxView, m: Map<Seq<char>, AccountState>) -> bool {
    if tx.sender == "system"@ {
        true
    } else {
        verify_ok(tx) && (tx.tx_type == TransactionType::Transfer ==> balance_in(m, tx.sender)
            >= tx.amount)
    }
}

/// Checks every block past the first against its own hash and its link to
/// the block before it.
#[verifier::loop_isolation(false)]
pub fn blocks_valid(blocks: &Vec<Block>) -> (r: bool)
    ensures
        r == chain_valid(block_views(blocks@)),
{
    let n = blocks.len();
    let mut i: usize = 1;
    while i < n
        invariant
            1 <= i <= n || n == 0,
            forall|j: int|
                1 <= j < i ==> block_valid(#[trigger] block_views(blocks@)[j]) && block_views(
                    blocks@,
                )[j].header.previous_hash == block_views(blocks@)[j - 1].hash,
        decreases n - i,
    {
        if !blocks[i].is_valid() {
            proof {
                assert(!(block_valid(block_views(blocks@)[i as int]) && block_views(
                    blocks@,
                )[i as int].header.previous_hash == block_views(blocks@)[i as int - 1].hash));
            }
            return false;
        }
        if !str_eq(blocks[i].header.previous_hash.as_str(), blocks[i - 1].hash.as_str()) {
            proof {
                assert(!(block_valid(block_views(blocks@)[i as int]) && block_views(
                    blocks@,
                )[i as int].header.previous_hash == block_views(blocks@)[i as int - 1].hash));
            }
            return false;
        }
        i += 1;
    }
    true
}

/// Collects every transaction of a chain into one list, in order.
#[verifier::loop_isolation(false)]
pub fn collect_chain_txs(blocks: &Vec<Block>) -> (r: Vec<Transaction>)
    ensures
        tx_views(r@) == chain_txs(block_views(blocks@)),
{
    let n = blocks.len();
    let mut all: Vec<Transaction> = Vec::new();
    let mut bi: usize = 0;
    while bi < n
        invariant
            bi <= n,
            tx_views(all@) =~= chain_txs(block_views(blocks@).take(bi as int)),
        decreases n - bi,
    {
        let block = &blocks[bi];
        let m = block.transactions.len();
        let ghost before = all@;
        let mut ti: usize = 0;
        while ti < m
            invariant
                ti <= m,
                m == block.transactions@.len(),
                all@.len() == before.len() + ti,
                forall|k: int| 0 <= k < before.len() ==> all@[k] == before[k],
                forall|k: int|
                    before.len() <= k < before.len() + ti ==> (#[trigger] all@[k])@
                        == block.transactions@[k - before.len()]@,
            decreases m - ti,
        {
            let t = block.transactions[ti].clone();
            all.push(t);
            ti += 1;
        }
        proof {
            lemma_chain_txs_snoc(block_views(blocks@).take(bi as int), blocks@[bi as int]@);
            assert(block_views(blocks@).take(bi as int).push(blocks@[bi as int]@) =~= block_views(
                blocks@,
            ).take(bi as int + 1));
            assert(tx_views(before) =~= chain_txs(block_views(blocks@).take(bi as int)));
            assert(blocks@[bi as int]@.transactions =~= tx_views(blocks@[bi as int].transactions@));
            assert(tx_views(all@) =~= chain_txs(block_views(blocks@).take(bi as int)) + blocks@[bi
                as int]@.transactions);
            assert(tx_views(all@) =~= chain_txs(block_views(blocks@).take(bi as int + 1)));
        }
        bi += 1;
    }
    proof {
        assert(block_views(blocks@).take(n as int) =~= block_views(blocks@));
    }
    all
}

/// Replays transfers into a world state, in order; the caller has shown
/// the replay stays in range.
#[verifier::loop_isolation(false)]
fn replay_into(state: &mut WorldState, txs: &Vec<Transaction>)
    requires
        old(state).wf(),
        replay_txs_ok(old(state).accounts_m(), tx_views(txs@)),
    ensures
        final(state).wf(),
        final(state).accounts_m() == replay_txs(old(state).accounts_m(), tx_views(txs@)),
        final(state).contracts_seq() == old(state).contracts_seq(),
        final(state).total_supply() == old(state).total_supply() + minted(tx_views(txs@)),
{
    let n = txs.len();
    let ghost m0 = old(state).accounts_m();
    let ghost views = tx_views(txs@);
    let mut i: usize = 0;
    while i < n
        invariant
            state.wf(),
            i <= n,
            n == txs@.len(),
            state.accounts_m() == replay_txs(m0, views.take(i as int)),
            state.contracts_seq() == old(state).contracts_seq(),
            state.total_supply() == old(state).total_supply() + minted(views.take(i as int)),
        decreases n - i,
    {
        proof {
            lemma_replay_ok_at(m0, views, i as int);
            assert(views.take(i as int).push(views[i as int]) =~= views.take(i as int + 1));
            assert(views.take(i as int + 1).drop_last() =~= views.take(i as int));
            lemma_replay_snoc(m0, views.take(i as int), views[i as int]);
        }
        let tx = &txs[i];
        match tx.tx_type {
            TransactionType::Transfer => {
                if str_eq(tx.sender.as_str(), "system") {
                    state.credit(tx.recipient.as_str(), tx.amount);
                } else {
                    let _moved = state.transfer(
                        tx.sender.as_str(),
                        tx.recipient.as_str(),
                        tx.amount,
                    );
                }
            },
            _ => {},
        }
        i += 1;
    }
    proof {
        assert(views.take(n as int) =~= views);
    }
}

/// Checks that replaying transfers from an empty state keeps every
/// balance and nonce in range.
pub fn replay_fits(txs: &Vec<Transaction>) -> (r: bool)
    ensures
        r == replay_txs_ok(Map::<Seq<char>, AccountState>::empty(), tx_views(txs@)),
{
    let seed = WorldState::new();
    replay_fits_from(&seed, txs)
}

/// Checks that replaying transfers over a state's accounts keeps every
/// balance and nonce in range; the state itself is untouched.
#[verifier::loop_isolation(false)]
pub fn replay_fits_from(seed: &WorldState, txs: &Vec<Transaction>) -> (r: bool)
    requires
        seed.wf(),
    ensures
        r == replay_txs_ok(seed.accounts_m(), tx_views(txs@)),
{
    let ghost m0 = seed.accounts_m();
    let ghost views = tx_views(txs@);
    let mut state = seed.duplicate_accounts();
    let n = txs.len();
    let mut i: usize = 0;
    while i < n
        invariant
            state.wf(),
            i <= n,
            n == txs@.len(),
            state.accounts_m() == replay_txs(m0, views.take(i as int)),
            replay_txs_ok(m0, views.take(i as int)),
        decreases n - i,
    {
        proof {
            assert(views.take(i as int).push(views[i as int]) =~= views.take(i as int + 1));
            lemma_replay_snoc(m0, views.take(i as int), views[i as int]);
        }
        let tx = &txs[i];
        match tx.tx_type {
            TransactionType::Transfer => {
                if str_eq(tx.sender.as_str(), "system") {
                    let balance = state.get_balance(tx.recipient.as_str());
                    if balance > u64::MAX - tx.amount {
                        proof {
                            assert(!apply_tx_ok(state.accounts_m(), views[i as int]));
                            if replay_txs_ok(m0, views) {
                                lemma_replay_ok_at(m0, views, i as int);
                            }
                        }
                        return false;
                    }
                    state.credit(tx.recipient.as_str(), tx.amount);
                } else {
                    let balance = state.get_balance(tx.sender.as_str());
                    if balance >= tx.amount {
                        let nonce = match state.get_account(tx.sender.as_str()) {
                            Some(a) => a.nonce,
                            None => 0,
                        };
                        if nonce == u64::MAX {
                            proof {
                                assert(!apply_tx_ok(state.accounts_m(), views[i as int]));
                                if replay_txs_ok(m0, views) {
                                    lemma_replay_ok_at(m0, views, i as int);
                                }
                            }
                            return false;
                        }
                        if !str_eq(tx.sender.as_str(), tx.recipient.as_str()) {
                            let to_balance = state.get_balance(tx.recipient.as_str());
                            if to_balance > u64::MAX - tx.amount {
                                proof {
                                    assert(!apply_tx_ok(state.accounts_m(), views[i as int]));
                                    if replay_txs_ok(m0, views) {
                                        lemma_replay_ok_at(m0, views, i as int);
                                    }
                                }
                                return false;
                            }
                        }
                        let _moved = state.transfer(
                            tx.sender.as_str(),
                            tx.recipient.as_str(),
                            tx.amount,
                        );
                    }
                }
            },
            _ => {},
        }
        i += 1;
    }
    proof {
        assert(views.take(n as int) =~= views);
    }
    true
}

/// The chain, its mempool, its mining parameters, and the world state
/// replayed from it.
#[derive(Debug)]
pub struct Blockchain {
    chain: Vec<Block>,
    pending_transactions: Vec<Transaction>,
    difficulty: u32,
    mining_reward: u64,
    /// The world state. Contract execution mutates it through the
    /// executor; tests and callers may credit it directly.
    pub state: WorldState,
}

impl Blockchain {
    /// The blocks themselves.
    pub closed spec fn blocks(&self) -> Seq<Block> {
        self.chain@
    }

    /// The chain as block views.
    pub open spec fn chain_s(&self) -> Seq<BlockView> {
        block_views(self.blocks())
    }

    /// The mempool's transactions.
    pub closed spec fn pending(&self) -> Seq<Transaction> {
        self.pending_transactions@
    }

    /// The mempool as transaction views.
    pub open spec fn pending_s(&self) -> Seq<TxView> {
        tx_views(self.pending())
    }

    pub closed spec fn difficulty_s(&self) -> u32 {
        self.difficulty
    }

    /// The world state, as a spec value.
    pub closed spec fn state_s(&self) -> WorldState {
        self.state
    }

    pub closed spec fn mining_reward_s(&self) -> u64 {
        self.mining_reward
    }

    /// The chain starts at genesis and stays linked and valid: every
    /// block past the first carries the hash of its predecessor and
    /// satisfies its own proof of work.
    pub open spec fn wf(&self) -> bool {
        &&& self.chain_s().len() >= 1
        &&& chain_valid(self.chain_s())
        &&& self.state_s().wf()
    }

    /// A fresh chain: genesis alone, an empty mempool, an empty state.
    pub fn new(difficulty: u32, mining_reward: u64) -> (bc: Blockchain)
        ensures
            bc.wf(),
            bc.chain_s().len() == 1,
            bc.chain_s()[0].header.index == 0,
            bc.chain_s()[0].transactions == Seq::<TxView>::empty(),
            bc.chain_s()[0].header.previous_hash == Seq::new(64, |i: int| '0'),
            bc.pending_s() == Seq::<TxView>::empty(),
            bc.difficulty_s() == difficulty,
            bc.mining_reward_s() == mining_reward,
            bc.state_s().accounts_m() == Map::<Seq<char>, AccountState>::empty(),
            bc.state_s().contracts_m().dom() == Set::<Seq<char>>::empty(),
    {
        let genesis = Block::genesis();
        let mut chain: Vec<Block> = Vec::new();
        chain.push(genesis);
        let bc = Blockchain {
            chain,
            pending_transactions: Vec::new(),
            difficulty,
            mining_reward,
            state: WorldState::new(),
        };
        proof {
            assert(bc.pending_s() =~= Seq::<TxView>::empty());
            assert(bc.state_s().contracts_m().dom() =~= Set::<Seq<char>>::empty());
        }
        bc
    }

    /// The blocks of the chain, in order.
    pub fn chain(&self) -> (r: &Vec<Block>)
        ensures
            r@ == self.blocks(),
    {
        &self.chain
    }

    /// The mempool, in arrival order.
    pub fn pending_transactions(&self) -> (r: &Vec<Transaction>)
        ensures
            r@ == self.pending(),
    {
        &self.pending_transactions
    }

    /// The world state.
    pub fn state(&self) -> (r: &WorldState)
        ensures
            *r == self.state_s(),
    {
        &self.state
    }

    pub fn difficulty(&self) -> (r: u32)
        ensures
            r == self.difficulty_s(),
    {
        self.difficulty
    }

    pub fn mining_reward(&self) -> (r: u64)
        ensures
            r == self.mining_reward_s(),
    {
        self.mining_reward
    }

    /// The block at the top of the chain.
    pub fn latest_block(&self) -> (r: &Block)
        requires
            self.wf(),
        ensures
            r@ == self.chain_s().last(),
    {
        &self.chain[self.chain.len() - 1]
    }

    /// The block at an index, if the chain is that long.
    pub fn get_block(&self, index: u64) -> (r: Option<&Block>)
        ensures
            match r {
                Some(b) => index < self.chain_s().len() && b@ == self.chain_s()[index as int],
                None => index >= self.chain_s().len(),
            },
    {
        if index >= self.chain.len() as u64 {
            None
        } else {
            let i = #[verifier::truncate] (index as usize);
            Some(&self.chain[i])
        }
    }

    /// How many blocks the chain holds.
    pub fn height(&self) -> (r: u64)
        ensures
            r == self.chain_s().len(),
    {
        self.chain.len() as u64
    }

    /// Admits a transaction to the mempool: the system sender outright;
    /// anyone else after signature verification and, for a transfer, a
    /// balance check.
    pub fn add_transaction(&mut self, tx: Transaction) -> (r: CoreResult<()>)
        requires
            old(self).wf(),
        ensures
            final(self).wf(),
            final(self).chain_s() == old(self).chain_s(),
            final(self).state_s() == old(self).state_s(),
            final(self).difficulty_s() == old(self).difficulty_s(),
            final(self).mining_reward_s() == old(self).mining_reward_s(),
            match r {
                Ok(_) => admissible(tx@, old(self).state_s().accounts_m()) && final(self).pending_s()
                    =~= old(self).pending_s().push(tx@),
                Err(e) => !admissible(tx@, old(self).state_s().accounts_m()) && final(self).pending_s()
                    == old(self).pending_s() && match e {
                    CoreError::InvalidSignature(_) => !verify_ok(tx@),
                    CoreError::InsufficientBalance { account, balance, required } => verify_ok(tx@)
                        && tx@.tx_type == TransactionType::Transfer && account@ == tx@.sender
                        && balance == balance_in(old(self).state_s().accounts_m(), tx@.sender)
                        && required == tx@.amount && balance < required,
                    _ => false,
                },
            },
    {
        if !str_eq(tx.sender.as_str(), "system") {
            match tx.verify() {
                Ok(_) => {},
                Err(e) => {
                    return Err(e);
                },
            }
            if matches!(tx.tx_type, TransactionType::Transfer) {
                let balance = self.state.get_balance(tx.sender.as_str());
                if balance < tx.amount {
                    return Err(
                        CoreError::InsufficientBalance {
                            account: tx.sender.clone(),
                            balance,
                            required: tx.amount,
                        },
                    );
                }
            }
        }
        self.pending_transactions.push(tx);
        Ok(())
    }

    /// Drains the mempool, appends the miner's reward transfer, applies
    /// every transfer to the state in order, and mines a block over the
    /// whole list. The reward is always the last transaction. The caller
    /// has shown the replay stays in range.
    #[verifier::loop_isolation(false)]
    pub fn mine_pending(&mut self, miner_address: &str) -> (r: CoreResult<Block>)
        requires
            old(self).wf(),
            replay_txs_ok(
                old(self).state_s().accounts_m(),
                old(self).pending_s().push(
                    coinbase_view(miner_address@, old(self).mining_reward_s()),
                ),
            ),
        ensures
            match r {
                Ok(b) => {
                    &&& final(self).wf()
                    &&& b@.transactions.len() == old(self).pending_s().len() + 1
                    &&& forall|k: int|
                        0 <= k < old(self).pending_s().len() ==> b@.transactions[k] == old(
                            self,
                        ).pending_s()[k]
                    &&& b@.transactions.last().sender == "system"@
                    &&& b@.transactions.last().recipient == miner_address@
                    &&& b@.transactions.last().amount == old(self).mining_reward_s()
                    &&& b@.transactions.last().tx_type == TransactionType::Transfer
                    &&& b@.header.index == old(self).chain_s().len()
                    &&& b@.header.previous_hash == old(self).chain_s().last().hash
                    &&& b@.header.difficulty == old(self).difficulty_s()
                    &&& b@.header.merkle_root == crate::merkle::merkle_root_of(b@.transactions)
                    &&& block_valid(b@)
                    &&& final(self).chain_s() =~= old(self).chain_s().push(b@)
                    &&& final(self).pending_s() == Seq::<TxView>::empty()
                    &&& final(self).state_s().accounts_m() == replay_txs(
                        old(self).state_s().accounts_m(),
                        b@.transactions,
                    )
                    &&& final(self).state_s().total_supply() == old(self).state_s().total_supply()
                        + minted(b@.transactions)
                    &&& final(self).state_s().contracts_seq() == old(self).state_s().contracts_seq()
                    &&& final(self).difficulty_s() == old(self).difficulty_s()
                    &&& final(self).mining_reward_s() == old(self).mining_reward_s()
                },
                Err(e) => {
                    &&& e matches CoreError::MiningError(_)
                    &&& final(self).wf()
                    &&& final(self).chain_s() == old(self).chain_s()
                    &&& final(self).pending_s() == Seq::<TxView>::empty()
                    &&& final(self).state_s().accounts_m() == replay_txs(
                        old(self).state_s().accounts_m(),
                        old(self).pending_s().push(
                            coinbase_view(miner_address@, old(self).mining_reward_s()),
                        ),
                    )
                    &&& final(self).state_s().total_supply() == old(self).state_s().total_supply()
                        + minted(
                        old(self).pending_s().push(
                            coinbase_view(miner_address@, old(self).mining_reward_s()),
                        ),
                    )
                    &&& final(self).state_s().contracts_seq() == old(self).state_s().contracts_seq()
                    &&& final(self).difficulty_s() == old(self).difficulty_s()
                    &&& final(self).mining_reward_s() == old(self).mining_reward_s()
                    &&& exists|h: HeaderView|
                        h.index == old(self).chain_s().len() && h.previous_hash == old(
                            self,
                        ).chain_s().last().hash && h.difficulty == old(self).difficulty_s()
                            && #[trigger] no_nonce_satisfies(h)
                },
            },
    {
        let reward_tx = Transaction::new_transfer(
            String::from_str("system"),
            miner_address.to_owned(),
            self.mining_reward,
        );
        let mut transactions = crate::block::copy_transactions(&self.pending_transactions);
        transactions.push(reward_tx);
        self.pending_transactions = Vec::new();
        proof {
            let pv = old(self).pending_s();
            let actual = tx_views(transactions@);
            assert(actual =~= pv.push(actual.last()));
            lemma_replay_snoc(old(self).state_s().accounts_m(), pv, actual.last());
            lemma_replay_snoc(
                old(self).state_s().accounts_m(),
                pv,
                coinbase_view(miner_address@, old(self).mining_reward_s()),
            );
            lemma_apply_tx_congruent(
                replay_txs(old(self).state_s().accounts_m(), pv),
                actual.last(),
                coinbase_view(miner_address@, old(self).mining_reward_s()),
            );
            assert(replay_txs_ok(old(self).state_s().accounts_m(), actual));
            let cb = coinbase_view(miner_address@, old(self).mining_reward_s());
            assert(replay_txs(old(self).state_s().accounts_m(), actual) == replay_txs(
                old(self).state_s().accounts_m(),
                pv.push(cb),
            ));
            assert(pv.push(actual.last()).drop_last() =~= pv);
            assert(pv.push(cb).drop_last() =~= pv);
            assert(minted(actual) == minted(pv.push(cb)));
            assert(self.pending_s() =~= Seq::<TxView>::empty());
        }
        replay_into(&mut self.state, &transactions);
        let previous_hash = self.chain[self.chain.len() - 1].hash.clone();
        let index = self.chain.len() as u64;
        let mut block = Block::new(index, previous_hash, transactions, self.difficulty);
        let ghost assembled = block@.header;
        match block.mine() {
            Ok(_) => {},
            Err(e) => {
                proof {
                    assert(no_nonce_satisfies(assembled));
                    assert(assembled.index == old(self).chain_s().len());
                    assert(assembled.previous_hash == old(self).chain_s().last().hash);
                    assert(assembled.difficulty == old(self).difficulty_s());
                }
                return Err(e);
            },
        }
        let copy = block.clone();
        self.chain.push(copy);
        proof {
            assert(self.chain_s() =~= old(self).chain_s().push(block@));
        }
        Ok(block)
    }

    /// Checks, without mining, that applying the mempool and the miner's
    /// reward to the present state keeps every balance and nonce in
    /// range: the condition `mine_pending` asks of its caller.
    pub fn can_mine_pending(&self, miner_address: &str) -> (r: bool)
        requires
            self.wf(),
        ensures
            r == replay_txs_ok(
                self.state_s().accounts_m(),
                self.pending_s().push(coinbase_view(miner_address@, self.mining_reward_s())),
            ),
    {
        let reward_tx = Transaction::new_transfer(
            String::from_str("system"),
            miner_address.to_owned(),
            self.mining_reward,
        );
        let mut txs = crate::block::copy_transactions(&self.pending_transactions);
        txs.push(reward_tx);
        let fits = replay_fits_from(&self.state, &txs);
        proof {
            let pv = self.pending_s();
            let actual = tx_views(txs@);
            assert(actual =~= pv.push(actual.last()));
            lemma_replay_snoc(self.state_s().accounts_m(), pv, actual.last());
            lemma_replay_snoc(
                self.state_s().accounts_m(),
                pv,
                coinbase_view(miner_address@, self.mining_reward_s()),
            );
            lemma_apply_tx_congruent(
                replay_txs(self.state_s().accounts_m(), pv),
                actual.last(),
                coinbase_view(miner_address@, self.mining_reward_s()),
            );
        }
        fits
    }

    /// Whether every block past the genesis is valid and linked to its
    /// predecessor.
    pub fn is_chain_valid(&self) -> (r: bool)
        ensures
            r == chain_valid(self.chain_s()),
    {
        blocks_valid(&self.chain)
    }

    /// Adopts an incoming chain exactly when it is strictly longer than
    /// the held one and valid end to end; on adoption the world state is
    /// rebuilt by replaying the new chain's transfers from nothing, and
    /// contracts are lost. The caller has shown that an adopted replay
    /// stays in range.
    pub fn replace_chain(&mut self, new_chain: Vec<Block>) -> (r: CoreResult<()>)
        requires
            old(self).wf(),
            new_chain@.len() > old(self).chain_s().len() && chain_valid(block_views(new_chain@))
                ==> replay_txs_ok(
                Map::<Seq<char>, AccountState>::empty(),
                chain_txs(block_views(new_chain@)),
            ),
        ensures
            final(self).pending_s() == old(self).pending_s(),
            final(self).difficulty_s() == old(self).difficulty_s(),
            final(self).mining_reward_s() == old(self).mining_reward_s(),
            match r {
                Ok(_) => {
                    &&& new_chain@.len() > old(self).chain_s().len()
                    &&& chain_valid(block_views(new_chain@))
                    &&& final(self).wf()
                    &&& final(self).chain_s() == block_views(new_chain@)
                    &&& final(self).state_s().accounts_m() == replay_txs(
                        Map::<Seq<char>, AccountState>::empty(),
                        chain_txs(block_views(new_chain@)),
                    )
                    &&& final(self).state_s().total_supply() == minted(
                        chain_txs(block_views(new_chain@)),
                    )
                    &&& final(self).state_s().contracts_m().dom() == Set::<Seq<char>>::empty()
                },
                Err(e) => {
                    &&& !(new_chain@.len() > old(self).chain_s().len() && chain_valid(
                        block_views(new_chain@),
                    ))
                    &&& e matches CoreError::InvalidChain(_)
                    &&& final(self).chain_s() == old(self).chain_s()
                    &&& final(self).state_s() == old(self).state_s()
                },
            },
    {
        if new_chain.len() <= self.chain.len() {
            return Err(
                CoreError::InvalidChain(
                    String::from_str("incoming chain is not longer than current chain"),
                ),
            );
        }
        if !blocks_valid(&new_chain) {
            return Err(CoreError::InvalidChain(String::from_str("incoming chain is not valid")));
        }
        let all_txs = collect_chain_txs(&new_chain);
        let mut state = WorldState::new();
        replay_into(&mut state, &all_txs);
        self.chain = new_chain;
        self.state = state;
        proof {
            assert(self.state.contracts_m().dom() =~= Set::<Seq<char>>::empty());
        }
        Ok(())
    }
}

/// Consecutive blocks of a well-formed chain are linked: each block past
/// the genesis carries the hash of the one before it.
pub proof fn lemma_chain_linked(bc: &Blockchain, i: int)
    requires
        bc.wf(),
        1 <= i < bc.chain_s().len(),
    ensures
        bc.chain_s()[i].header.previous_hash == bc.chain_s()[i - 1].hash,
        block_valid(bc.chain_s()[i]),
{
}

} // verus!
