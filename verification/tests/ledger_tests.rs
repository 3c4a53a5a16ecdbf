use linchain::blockchain::{
    Address, AssetName, SignedBlock, SignedTransaction, TransactionInfo, UnsignedBlock,
    UnsignedTransaction,
};
use linchain::state::{Account, AssetBalances, State, is_chain_in_range};

fn address(tag: u8) -> Address {
    Address(vec![tag; 3])
}

fn info(amount: u64, asset: AssetName) -> TransactionInfo {
    TransactionInfo { amount, asset_name: asset, timestamp: 1_748_613_600_000_000_000 }
}

fn signed(transaction: UnsignedTransaction) -> SignedTransaction {
    SignedTransaction { transaction, signature: String::new(), public_key: vec![] }
}

fn top_up(to: u8, amount: u64, asset: AssetName) -> SignedTransaction {
    signed(UnsignedTransaction::TopUpTransaction { receiver_addr: address(to), info: info(amount, asset) })
}

fn transfer(from: u8, to: u8, amount: u64, asset: AssetName) -> SignedTransaction {
    signed(UnsignedTransaction::ValueTransferTransaction {
        sender_addr: address(from),
        receiver_addr: address(to),
        info: info(amount, asset),
    })
}

fn block(transactions: Vec<SignedTransaction>, hash: u8) -> SignedBlock {
    SignedBlock {
        block: UnsignedBlock { transactions, hash: [hash; 32], previous_block_hash: [0; 32] },
        signature: String::new(),
        public_key: vec![],
    }
}

fn assets(btc: Option<u64>, eth: Option<u64>) -> AssetBalances {
    AssetBalances { btc, eth }
}

fn find<'a>(state: &'a State, tag: u8) -> Option<&'a Account> {
    state.accounts.iter().find(|a| a.address == address(tag))
}

fn chain() -> Vec<SignedBlock> {
    vec![
        block(vec![top_up(1, 5, AssetName::ETH), top_up(2, 7, AssetName::BTC)], 1),
        block(vec![transfer(1, 2, 2, AssetName::ETH), transfer(2, 1, 2, AssetName::BTC)], 2),
    ]
}

#[test]
fn initial_state_is_calculated() {
    let state = State::initialize(chain());
    assert_eq!(state.accounts.len(), 2);
    assert_eq!(find(&state, 1).unwrap().assets, assets(Some(2), Some(3)));
    assert_eq!(find(&state, 2).unwrap().assets, assets(Some(5), Some(2)));
    assert_eq!(state.hash_of_last_block, [2; 32]);
}

#[test]
fn empty_chain_gives_no_accounts_and_zero_hash() {
    let state = State::initialize(vec![]);
    assert!(state.accounts.is_empty());
    assert_eq!(state.hash_of_last_block, [0; 32]);
}

#[test]
fn transfer_to_oneself_leaves_a_zero_entry() {
    let state = State::initialize(vec![block(vec![transfer(3, 3, 0, AssetName::BTC)], 9)]);
    assert_eq!(find(&state, 3).unwrap().assets, assets(Some(0), None));
}

#[test]
fn totals_equal_top_ups() {
    let state = State::initialize(chain());
    let eth: u64 = state.accounts.iter().map(|a| a.assets.eth.unwrap_or(0)).sum();
    let btc: u64 = state.accounts.iter().map(|a| a.assets.btc.unwrap_or(0)).sum();
    assert_eq!((eth, btc), (5, 7));
}

#[test]
fn overdrawn_chain_is_out_of_range() {
    assert!(is_chain_in_range(&chain()));
    assert!(!is_chain_in_range(&vec![block(vec![transfer(1, 2, 1, AssetName::ETH)], 1)]));
    assert!(!is_chain_in_range(&vec![block(
        vec![top_up(1, u64::MAX, AssetName::ETH), top_up(1, 1, AssetName::ETH)],
        1
    )]));
    assert!(is_chain_in_range(&vec![block(vec![top_up(1, u64::MAX, AssetName::ETH)], 1)]));
}

#[test]
fn recalculated_state_matches_recomputed_state() {
    let mut blocks = chain();
    let extra = block(vec![top_up(1, 4, AssetName::BTC), top_up(4, 1, AssetName::ETH)], 3);
    let mut state = State::initialize(chain());
    assert!(state.is_well_formed());
    assert!(state.can_recalculate_state(&extra));
    state.recalculate_state(&extra);
    blocks.push(extra);
    let recomputed = State::initialize(blocks);
    assert_eq!(state.accounts.len(), recomputed.accounts.len());
    for account in &recomputed.accounts {
        let tag = account.address.0[0];
        assert_eq!(find(&state, tag).unwrap().assets, account.assets);
    }
    // The hash of the last block is left as it was.
    assert_eq!(state.hash_of_last_block, [2; 32]);
    assert_eq!(find(&state, 1).unwrap().assets, assets(Some(6), Some(3)));
    assert_eq!(find(&state, 4).unwrap().assets, assets(None, Some(1)));
}

#[test]
fn block_that_debits_an_earlier_balance_cannot_be_recalculated() {
    let state = State::initialize(chain());
    // Taken on its own, the block's transfer would leave the sender below zero.
    assert!(!state.can_recalculate_state(&block(vec![transfer(1, 2, 1, AssetName::ETH)], 3)));
    let full = State::initialize(vec![block(vec![top_up(1, u64::MAX, AssetName::ETH)], 1)]);
    assert!(!full.can_recalculate_state(&block(vec![top_up(1, 1, AssetName::ETH)], 2)));
}

#[test]
fn duplicate_accounts_are_not_well_formed() {
    let state = State {
        accounts: vec![
            Account { address: address(1), assets: AssetBalances::new() },
            Account { address: address(1), assets: AssetBalances::new() },
        ],
        hash_of_last_block: [0; 32],
    };
    assert!(!state.is_well_formed());
}

#[test]
fn asset_balances_insert_and_get() {
    let mut balances = AssetBalances::new();
    assert_eq!(balances.get(AssetName::BTC), None);
    balances.insert(AssetName::BTC, 3);
    assert_eq!(balances.get(AssetName::BTC), Some(3));
    assert_eq!(balances.get(AssetName::ETH), None);
}

#[test]
fn order_of_transactions_does_not_change_balances() {
    let forward = State::initialize(vec![
        block(vec![top_up(1, 5, AssetName::ETH), top_up(2, 7, AssetName::BTC)], 1),
        block(vec![transfer(1, 2, 2, AssetName::ETH)], 2),
    ]);
    let shuffled = State::initialize(vec![
        block(vec![top_up(2, 7, AssetName::BTC)], 1),
        block(vec![top_up(1, 5, AssetName::ETH), transfer(1, 2, 2, AssetName::ETH)], 2),
    ]);
    assert_eq!(forward.accounts.len(), shuffled.accounts.len());
    for account in &forward.accounts {
        let tag = account.address.0[0];
        assert_eq!(find(&shuffled, tag).unwrap().assets, account.assets);
    }
}

#[test]
fn recalculation_keeps_accounts_in_place_and_appends_new_ones() {
    let mut state = State::initialize(chain());
    let before: Vec<Address> = state.accounts.iter().map(|a| a.address.clone()).collect();
    let extra = block(vec![top_up(5, 1, AssetName::ETH), top_up(1, 1, AssetName::ETH), top_up(6, 2, AssetName::BTC)], 3);
    assert!(state.can_recalculate_state(&extra));
    state.recalculate_state(&extra);
    assert_eq!(state.accounts.len(), before.len() + 2);
    for (i, address) in before.iter().enumerate() {
        assert_eq!(&state.accounts[i].address, address);
    }
    assert_eq!(state.accounts[before.len()].address, address(5));
    assert_eq!(state.accounts[before.len() + 1].address, address(6));
}
