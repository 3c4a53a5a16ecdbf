use linchain::blockchain::{Address, AssetName, SignedTransaction, UnsignedTransaction};
use linchain::client::create_and_sign_topup_transaction;
use linchain::crypto::{public_key_of, sign_ecdsa, verify_ecdsa, CryptoError};
use linchain::encoding::{unsigned_block_bytes, unsigned_transaction_bytes};
use linchain::network::Message;
use linchain::peer::{transaction_checks_out, MemPool, Peer, PeerError};
use linchain::state::State;
use linchain::storage::FileStorage;

const CLIENT_KEY: [u8; 32] = [3u8; 32];
const PEER_KEY: [u8; 32] = [4u8; 32];

fn client_transaction(tag: u8, timestamp: i64) -> SignedTransaction {
    create_and_sign_topup_transaction(Address(vec![tag; 5]), &CLIENT_KEY, timestamp).unwrap()
}

#[test]
fn client_transaction_is_a_signed_top_up() {
    let t = client_transaction(1, 42);
    match &t.transaction {
        UnsignedTransaction::TopUpTransaction { receiver_addr, info } => {
            assert_eq!(receiver_addr.0, vec![1; 5]);
            assert_eq!(info.amount, 5);
            assert_eq!(info.asset_name, AssetName::ETH);
            assert_eq!(info.timestamp, 42);
        }
        _ => panic!("expected a top-up"),
    }
    assert_eq!(t.public_key, public_key_of(&CLIENT_KEY));
    let bytes = unsigned_transaction_bytes(&t.transaction);
    assert_eq!(verify_ecdsa(&bytes, &t.signature, &t.public_key), Ok(true));
    assert!(transaction_checks_out(&t));
    assert_eq!(
        create_and_sign_topup_transaction(Address(vec![1]), &[0u8; 32], 0).unwrap_err(),
        CryptoError::InvalidSecretKey
    );
}

#[test]
fn mempool_fills_and_drains_in_order() {
    let mut pool = MemPool::new(2);
    assert_eq!(pool.max_size(), 2);
    assert!(!pool.has_reached_max_size());
    let a = client_transaction(1, 1);
    let b = client_transaction(2, 2);
    let c = client_transaction(3, 3);
    pool.add_new_transaction(a.clone());
    assert!(pool.contains(&a));
    assert!(!pool.contains(&b));
    pool.add_new_transaction(b.clone());
    assert!(pool.has_reached_max_size());
    pool.add_new_transaction(c.clone());
    assert!(!pool.has_reached_max_size());
    let drained = pool.drain_all();
    assert_eq!(drained, vec![a, b]);
    assert_eq!(pool.len(), 1);
    assert!(pool.contains(&c));
}

#[test]
fn peer_makes_a_signed_block_when_the_pool_fills() {
    let mut peer = Peer::new(2);
    let mut state = State::initialize(vec![]);
    let first = client_transaction(1, 1);
    let second = client_transaction(2, 2);

    let outcome = peer
        .handle_message(&PEER_KEY, &mut state, Message::ClientTransaction(first.clone()))
        .unwrap()
        .unwrap()
        .unwrap();
    assert!(outcome.new_block.is_none());
    assert_eq!(outcome.transaction, first);
    assert_eq!(peer.mempool.len(), 1);
    assert!(state.accounts.is_empty());

    // A peer's copy of a pooled transaction is left alone.
    let again = peer.handle_message(&PEER_KEY, &mut state, Message::PeerTransaction(first.clone()));
    assert!(matches!(again, Some(None)));

    let outcome = peer
        .handle_message(&PEER_KEY, &mut state, Message::PeerTransaction(second.clone()))
        .unwrap()
        .unwrap()
        .unwrap();
    let block = outcome.new_block.expect("the pool was full");
    assert_eq!(peer.mempool.len(), 0);
    assert_eq!(block.block.transactions, vec![first, second]);
    assert_eq!(block.block.previous_block_hash, [0; 32]);
    assert_eq!(block.public_key, public_key_of(&PEER_KEY));
    let signed_bytes = unsigned_block_bytes(&block.block);
    assert_eq!(block.signature, sign_ecdsa(&signed_bytes, &PEER_KEY).unwrap());
    assert_eq!(verify_ecdsa(&signed_bytes, &block.signature, &block.public_key), Ok(true));
    assert_eq!(state.accounts.len(), 2);
    assert_eq!(state.accounts.iter().map(|a| a.assets.eth.unwrap()).sum::<u64>(), 10);
    // The state keeps the hash of the last block it was built from.
    assert_eq!(state.hash_of_last_block, [0; 32]);
}

#[test]
fn badly_signed_transaction_is_turned_down() {
    let mut peer = Peer::new(2);
    let mut state = State::initialize(vec![]);
    let mut forged = client_transaction(1, 1);
    forged.signature = sign_ecdsa(b"something else", &CLIENT_KEY).unwrap();
    let outcome = peer
        .handle_message(&PEER_KEY, &mut state, Message::ClientTransaction(forged))
        .unwrap()
        .unwrap();
    assert!(matches!(outcome, Err(PeerError::Crypto(CryptoError::VerificationFailed))));
    assert_eq!(peer.mempool.len(), 0);

    let mut unreadable = client_transaction(1, 1);
    unreadable.signature = "xyz".to_string();
    let outcome = peer
        .handle_message(&PEER_KEY, &mut state, Message::ClientTransaction(unreadable))
        .unwrap()
        .unwrap();
    assert!(matches!(outcome, Err(PeerError::Crypto(CryptoError::InvalidSignatureEncoding))));
}

#[test]
fn blocks_from_other_peers_change_nothing() {
    let mut peer = Peer::new(1);
    let mut state = State::initialize(vec![]);
    let block = linchain::blockchain::SignedBlock {
        block: linchain::blockchain::UnsignedBlock::new(vec![], [0; 32]),
        signature: String::new(),
        public_key: vec![],
    };
    let outcome = peer.handle_message(&PEER_KEY, &mut state, Message::NewBlock(block));
    assert!(matches!(outcome, Some(None)));
}

#[test]
fn invalid_peer_key_is_refused_before_anything_changes() {
    let mut peer = Peer::new(1);
    let mut state = State::initialize(vec![]);
    let outcome =
        peer.handle_message(&[0u8; 32], &mut state, Message::ClientTransaction(client_transaction(1, 1)));
    assert!(outcome.is_none());
    assert_eq!(peer.mempool.len(), 0);
}

#[test]
fn file_storage_keeps_the_file_name() {
    let storage = FileStorage::new("1.jsonl");
    assert_eq!(storage.filename, "1.jsonl");
}

#[test]
fn empty_block_hash_covers_previous_hash_and_empty_list() {
    let block = linchain::blockchain::UnsignedBlock::new(vec![], [7; 32]);
    let mut data = vec![7u8; 32];
    data.push(0);
    assert_eq!(block.hash, linchain::crypto::sha256(&data));
    assert!(block.transactions.is_empty());
}

#[test]
fn large_block_size_still_takes_transactions() {
    let mut peer = Peer::new(usize::MAX);
    let mut state = State::initialize(vec![]);
    let t = client_transaction(1, 1);
    let outcome = peer
        .handle_message(&PEER_KEY, &mut state, Message::ClientTransaction(t.clone()))
        .unwrap()
        .unwrap()
        .unwrap();
    assert!(outcome.new_block.is_none());
    assert_eq!(outcome.transaction, t);
    assert_eq!(peer.mempool.len(), 1);
}
