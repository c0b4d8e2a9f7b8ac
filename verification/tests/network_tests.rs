use powchain::chain::Blockchain;
use powchain::network::{handle_event, NetworkCommand, NetworkEvent};
use powchain::transaction::Transaction;
use powchain::wallet::Wallet;

#[test]
fn test_new_transaction_event_admits() {
    let mut bc = Blockchain::new(1, 50);
    let mut peers: u64 = 0;
    let wallet = Wallet::new();
    bc.state.credit(&wallet.address, 500);
    let mut tx = Transaction::new_transfer(wallet.address.clone(), "bob".into(), 100);
    tx.sign(wallet.signing_key());

    let r = handle_event(&mut bc, &mut peers, NetworkEvent::NewTransaction(tx));
    assert!(r.is_none());
    assert_eq!(bc.pending_transactions().len(), 1);
}

#[test]
fn test_bad_transaction_event_swallowed() {
    let mut bc = Blockchain::new(1, 50);
    let mut peers: u64 = 0;
    let tx = Transaction::new_transfer("nobody".into(), "bob".into(), 100);
    let r = handle_event(&mut bc, &mut peers, NetworkEvent::NewTransaction(tx));
    assert!(r.is_none());
    assert_eq!(bc.pending_transactions().len(), 0);
}

#[test]
fn test_new_block_event_requests_chain() {
    let mut a = Blockchain::new(1, 50);
    let block = a.mine_pending("miner").unwrap();

    let mut bc = Blockchain::new(1, 50);
    let mut peers: u64 = 0;
    let r = handle_event(&mut bc, &mut peers, NetworkEvent::NewBlock(block));
    assert!(matches!(r, Some(NetworkCommand::RequestChain)));
}

#[test]
fn test_chain_request_event_answers() {
    let mut bc = Blockchain::new(1, 50);
    bc.mine_pending("miner").unwrap();
    let mut peers: u64 = 0;
    let r = handle_event(
        &mut bc,
        &mut peers,
        NetworkEvent::ChainRequest { peer: "peer-1".into() },
    );
    match r {
        Some(NetworkCommand::BroadcastChain(blocks)) => {
            assert_eq!(blocks.len(), bc.chain().len());
            assert_eq!(blocks.last().unwrap().hash, bc.chain().last().unwrap().hash);
        }
        other => panic!("expected a chain broadcast, got {:?}", other),
    }
}

#[test]
fn test_request_driven_convergence() {
    // One node asks, the other answers with its chain, and the answer
    // converges the asking node.
    let mut a = Blockchain::new(1, 50);
    a.mine_pending("miner-a").unwrap();
    a.mine_pending("miner-a").unwrap();
    let mut a_peers: u64 = 0;

    let answer = handle_event(
        &mut a,
        &mut a_peers,
        NetworkEvent::ChainRequest { peer: "node-b".into() },
    );
    let chain = match answer {
        Some(NetworkCommand::BroadcastChain(blocks)) => blocks,
        other => panic!("expected a chain broadcast, got {:?}", other),
    };

    let mut b = Blockchain::new(1, 50);
    let mut b_peers: u64 = 0;
    let r = handle_event(&mut b, &mut b_peers, NetworkEvent::ChainResponse(chain));
    assert!(r.is_none());
    assert_eq!(b.height(), a.height());
    assert_eq!(b.state().get_balance("miner-a"), 100);
}

#[test]
fn test_chain_response_event_converges() {
    let mut a = Blockchain::new(1, 50);
    a.mine_pending("miner-a").unwrap();
    a.mine_pending("miner-a").unwrap();

    let mut b = Blockchain::new(1, 50);
    b.mine_pending("miner-b").unwrap();
    let mut peers: u64 = 0;

    let r = handle_event(&mut b, &mut peers, NetworkEvent::ChainResponse(a.chain().clone()));
    assert!(r.is_none());
    assert_eq!(b.height(), 3);
    assert_eq!(b.state().get_balance("miner-a"), 100);

    // A shorter chain is silently ignored.
    let short = Blockchain::new(1, 50);
    let r = handle_event(&mut b, &mut peers, NetworkEvent::ChainResponse(short.chain().clone()));
    assert!(r.is_none());
    assert_eq!(b.height(), 3);
}

#[test]
fn test_peer_counter_events() {
    let mut bc = Blockchain::new(1, 50);
    let mut peers: u64 = 0;
    handle_event(&mut bc, &mut peers, NetworkEvent::PeerConnected("p1".into()));
    handle_event(&mut bc, &mut peers, NetworkEvent::PeerConnected("p2".into()));
    assert_eq!(peers, 2);
    handle_event(&mut bc, &mut peers, NetworkEvent::PeerDisconnected("p1".into()));
    assert_eq!(peers, 1);
    handle_event(&mut bc, &mut peers, NetworkEvent::PeerDisconnected("p1".into()));
    handle_event(&mut bc, &mut peers, NetworkEvent::PeerDisconnected("p2".into()));
    assert_eq!(peers, 0);
}
