//! The command/event surface between the chain and a gossip transport.
//! The transport is a collaborator outside this crate; the decisions made
//! on its events are here, verified: admit gossiped transactions, answer
//! chain requests, and converge by longest-chain replacement. A bad
//! message never brings the node down.

use vstd::prelude::*;

use crate::block::{block_views, copy_blocks, Block};
use crate::chain::{
    admissible, blocks_valid, chain_txs, chain_valid, collect_chain_txs, replay_fits, replay_txs,
    replay_txs_ok, Blockchain,
};
use crate::state::AccountState;
use crate::transaction::Transaction;

verus! {

/// Commands from the application to the network layer.
#[derive(Debug)]
pub enum NetworkCommand {
    BroadcastTransaction(Transaction),
    BroadcastBlock(Block),
    BroadcastChain(Vec<Block>),
    RequestChain,
}

/// Events from the network layer to the application.
#[derive(Debug)]
pub enum NetworkEvent {
    NewTransaction(Transaction),
    NewBlock(Block),
    ChainRequest { peer: String },
    ChainResponse(Vec<Block>),
    PeerConnected(String),
    PeerDisconnected(String),
}

/// Whether an incoming chain is adopted: strictly longer, valid end to
/// end, and its replay stays in range.
pub open spec fn adopts(bc: &Blockchain, chain: Seq<Block>) -> bool {
    chain.len() > bc.chain_s().len() && chain_valid(block_views(chain)) && replay_txs_ok(
        Map::<Seq<char>, AccountState>::empty(),
        chain_txs(block_views(chain)),
    )
}

/// Applies one network event to the node: a gossiped transaction is
/// offered to the mempool, a gossiped block triggers a full chain
/// request, a chain request is answered with the whole held chain, a
/// chain response is adopted under longest-chain replacement, and peer
/// events keep the peer counter. Failures are swallowed: no event brings
/// the node down.
pub fn handle_event(bc: &mut Blockchain, peer_count: &mut u64, event: NetworkEvent) -> (r: Option<
    NetworkCommand,
>)
    requires
        old(bc).wf(),
    ensures
        final(bc).wf(),
        final(bc).difficulty_s() == old(bc).difficulty_s(),
        final(bc).mining_reward_s() == old(bc).mining_reward_s(),
        match event {
            NetworkEvent::NewTransaction(tx) => {
                &&& final(bc).chain_s() == old(bc).chain_s()
                &&& final(bc).state_s() == old(bc).state_s()
                &&& *final(peer_count) == *old(peer_count)
                &&& r is None
                &&& admissible(tx@, old(bc).state_s().accounts_m()) ==> final(bc).pending_s()
                    =~= old(bc).pending_s().push(tx@)
                &&& !admissible(tx@, old(bc).state_s().accounts_m()) ==> final(bc).pending_s()
                    == old(bc).pending_s()
            },
            NetworkEvent::NewBlock(_) => {
                &&& *final(bc) == *old(bc)
                &&& *final(peer_count) == *old(peer_count)
                &&& r matches Some(NetworkCommand::RequestChain)
            },
            NetworkEvent::ChainRequest { .. } => {
                &&& *final(bc) == *old(bc)
                &&& *final(peer_count) == *old(peer_count)
                &&& (r matches Some(NetworkCommand::BroadcastChain(c)) && block_views(c@) == old(
                    bc,
                ).chain_s())
            },
            NetworkEvent::ChainResponse(chain) => {
                &&& r is None
                &&& *final(peer_count) == *old(peer_count)
                &&& final(bc).pending_s() == old(bc).pending_s()
                &&& if adopts(old(bc), chain@) {
                    final(bc).chain_s() == block_views(chain@) && final(bc).state_s().accounts_m() == replay_txs(
                        Map::<Seq<char>, AccountState>::empty(),
                        chain_txs(block_views(chain@)),
                    )
                } else {
                    final(bc).chain_s() == old(bc).chain_s() && final(bc).state_s() == old(bc).state_s()
                }
            },
            NetworkEvent::PeerConnected(_) => {
                &&& *final(bc) == *old(bc)
                &&& r is None
                &&& *final(peer_count) == (if *old(peer_count) < u64::MAX {
                    *old(peer_count) + 1
                } else {
                    u64::MAX as int
                })
            },
            NetworkEvent::PeerDisconnected(_) => {
                &&& *final(bc) == *old(bc)
                &&& r is None
                &&& *final(peer_count) == (if *old(peer_count) > 0 {
                    *old(peer_count) - 1
                } else {
                    0int
                })
            },
        },
{
    match event {
        NetworkEvent::NewTransaction(tx) => {
            let _admitted = bc.add_transaction(tx);
            None
        },
        NetworkEvent::NewBlock(_) => Some(NetworkCommand::RequestChain),
        NetworkEvent::ChainRequest { peer: _ } => {
            let blocks = copy_blocks(bc.chain());
            Some(NetworkCommand::BroadcastChain(blocks))
        },
        NetworkEvent::ChainResponse(chain) => {
            let longer = (chain.len() as u64) > bc.height();
            if longer && blocks_valid(&chain) {
                let all = collect_chain_txs(&chain);
                if replay_fits(&all) {
                    let _adopted = bc.replace_chain(chain);
                }
            }
            None
        },
        NetworkEvent::PeerConnected(_) => {
            if *peer_count < u64::MAX {
                *peer_count = *peer_count + 1;
            }
            None
        },
        NetworkEvent::PeerDisconnected(_) => {
            if *peer_count > 0 {
                *peer_count = *peer_count - 1;
            }
            None
        },
    }
}

} // verus!
