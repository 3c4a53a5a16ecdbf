//! The ledger: the balance of every asset at every address, as the
//! transactions of the chain leave it.
use vstd::prelude::*;
use crate::blockchain::{
    Address, AssetName, SignedBlock, SignedBlockModel, SignedTransaction, TransactionModel,
    UnsignedTransaction,
};

verus! {

/// The balances that one address holds, at most one per asset. An asset
/// that no transaction has touched has no entry; one that has been touched
/// has an entry, which may be zero.
#[derive(Debug, Clone, Copy, PartialEq, Eq, Structural)]
pub struct AssetBalances {
    pub btc: Option<u64>,
    pub eth: Option<u64>,
}

impl AssetBalances {
    /// The entry of an asset.
    pub open spec fn entry(self, asset: AssetName) -> Option<u64> {
        match asset {
            AssetName::BTC => self.btc,
            AssetName::ETH => self.eth,
        }
    }

    /// The balances as a map from asset to amount.
    pub open spec fn as_map(self) -> Map<AssetName, int> {
        Map::new(|k: AssetName| self.entry(k) is Some, |k: AssetName| self.entry(k)->0 as int)
    }

    /// No entries.
    pub fn new() -> (balances: AssetBalances)
        ensures
            balances.as_map() == Map::<AssetName, int>::empty(),
            forall|k: AssetName| balances.entry(k) is None,
    {
        let balances = AssetBalances { btc: None, eth: None };
        assert(balances.as_map() =~= Map::<AssetName, int>::empty());
        balances
    }

    /// The entry of an asset.
    pub fn get(&self, asset: AssetName) -> (amount: Option<u64>)
        ensures
            amount == self.entry(asset),
    {
        match asset {
            AssetName::BTC => self.btc,
            AssetName::ETH => self.eth,
        }
    }

    /// Sets the entry of an asset.
    pub fn insert(&mut self, asset: AssetName, amount: u64)
        ensures
            final(self).as_map() == old(self).as_map().insert(asset, amount as int),
            forall|k: AssetName| k != asset ==> final(self).entry(k) == old(self).entry(k),
            final(self).entry(asset) == Some(amount),
    {
        match asset {
            AssetName::BTC => self.btc = Some(amount),
            AssetName::ETH => self.eth = Some(amount),
        }
        assert(self.as_map() =~= old(self).as_map().insert(asset, amount as int));
    }
}

/// An address with its balances.
#[derive(Debug, PartialEq)]
pub struct Account {
    pub address: Address,
    pub assets: AssetBalances,
}

/// The balances of every address: address, then asset, then amount.
pub type Balances = Map<Seq<u8>, Map<AssetName, int>>;

/// The amount of an asset at an address; zero where there is no entry.
pub open spec fn balance(m: Balances, address: Seq<u8>, asset: AssetName) -> int {
    if m.contains_key(address) && m[address].contains_key(asset) {
        m[address][asset]
    } else {
        0
    }
}

/// The balances after the amount of one asset at one address changes by
/// `delta`; the entry is made if there was none.
pub open spec fn adjust(m: Balances, address: Seq<u8>, asset: AssetName, delta: int) -> Balances {
    let assets = if m.contains_key(address) {
        m[address]
    } else {
        Map::empty()
    };
    m.insert(address, assets.insert(asset, balance(m, address, asset) + delta))
}

/// The balances after a transaction: a top-up credits the receiver; a
/// transfer credits the receiver, then debits the sender.
pub open spec fn apply_transaction(m: Balances, t: TransactionModel) -> Balances {
    match t {
        TransactionModel::TopUp { receiver, info } => adjust(
            m,
            receiver,
            info.asset_name,
            info.amount as int,
        ),
        TransactionModel::ValueTransfer { sender, receiver, info } => adjust(
            adjust(m, receiver, info.asset_name, info.amount as int),
            sender,
            info.asset_name,
            -(info.amount as int),
        ),
    }
}

/// Whether a transaction keeps every amount that it touches within `u64`:
/// the credit does not overflow and the debit does not go below zero.
pub open spec fn transaction_in_range(m: Balances, t: TransactionModel) -> bool {
    match t {
        TransactionModel::TopUp { receiver, info } => balance(m, receiver, info.asset_name)
            + info.amount <= u64::MAX,
        TransactionModel::ValueTransfer { sender, receiver, info } => {
            &&& balance(m, receiver, info.asset_name) + info.amount <= u64::MAX
            &&& balance(
                adjust(m, receiver, info.asset_name, info.amount as int),
                sender,
                info.asset_name,
            ) >= info.amount
        },
    }
}

/// The balances after the transactions, in order.
pub open spec fn apply_transactions(m: Balances, ts: Seq<TransactionModel>) -> Balances
    decreases ts.len(),
{
    if ts.len() == 0 {
        m
    } else {
        apply_transaction(apply_transactions(m, ts.drop_last()), ts.last())
    }
}

/// Whether every transaction, in order, stays within range.
pub open spec fn transactions_in_range(m: Balances, ts: Seq<TransactionModel>) -> bool
    decreases ts.len(),
{
    if ts.len() == 0 {
        true
    } else {
        transactions_in_range(m, ts.drop_last()) && transaction_in_range(
            apply_transactions(m, ts.drop_last()),
            ts.last(),
        )
    }
}

/// The unsigned transactions of a block, in order.
pub open spec fn block_transactions(b: SignedBlockModel) -> Seq<TransactionModel> {
    unsigned_of(b.block.transactions)
}

/// The unsigned transactions of a chain of blocks, block after block.
pub open spec fn chain_transactions(blocks: Seq<SignedBlockModel>) -> Seq<TransactionModel>
    decreases blocks.len(),
{
    if blocks.len() == 0 {
        seq![]
    } else {
        chain_transactions(blocks.drop_last()) + block_transactions(blocks.last())
    }
}

/// The views of a sequence of signed blocks.
pub open spec fn blocks_view(blocks: Seq<SignedBlock>) -> Seq<SignedBlockModel> {
    blocks.map_values(|b: SignedBlock| b@)
}

/// The balances that the transactions of a chain leave, from nothing.
pub open spec fn ledger(blocks: Seq<SignedBlockModel>) -> Balances {
    apply_transactions(Map::empty(), chain_transactions(blocks))
}

/// Whether no two accounts share an address.
pub open spec fn addresses_unique(accounts: Seq<Account>) -> bool {
    forall|i: int, j: int|
        0 <= i < accounts.len() && 0 <= j < accounts.len() && i != j ==> #[trigger] accounts[i].address@
            != #[trigger] accounts[j].address@
}

/// The balances that the accounts hold.
pub open spec fn accounts_view(accounts: Seq<Account>) -> Balances
    decreases accounts.len(),
{
    if accounts.len() == 0 {
        Map::empty()
    } else {
        accounts_view(accounts.drop_last()).insert(
            accounts.last().address@,
            accounts.last().assets.as_map(),
        )
    }
}

/// The amount of an asset in a balance set; zero where there is no entry.
pub open spec fn amount_of(b: AssetBalances, asset: AssetName) -> int {
    match b.entry(asset) {
        Some(v) => v as int,
        None => 0,
    }
}

/// The sum over all accounts of the amount of an asset.
pub open spec fn total(accounts: Seq<Account>, asset: AssetName) -> int
    decreases accounts.len(),
{
    if accounts.len() == 0 {
        0
    } else {
        total(accounts.drop_last(), asset) + amount_of(accounts.last().assets, asset)
    }
}

/// The amount of an asset that a transaction tops up: a transfer tops up nothing.
pub open spec fn topup_amount(t: TransactionModel, asset: AssetName) -> int {
    match t {
        TransactionModel::TopUp { info, .. } => if info.asset_name == asset {
            info.amount as int
        } else {
            0
        },
        TransactionModel::ValueTransfer { .. } => 0,
    }
}

/// The sum of the amounts of an asset that the transactions top up.
pub open spec fn topped_up(ts: Seq<TransactionModel>, asset: AssetName) -> int
    decreases ts.len(),
{
    if ts.len() == 0 {
        0
    } else {
        topped_up(ts.drop_last(), asset) + topup_amount(ts.last(), asset)
    }
}

/// The unsigned transactions of a sequence of signed ones.
pub open spec fn unsigned_of(ts: Seq<crate::blockchain::SignedTransactionModel>) -> Seq<TransactionModel> {
    ts.map_values(|t: crate::blockchain::SignedTransactionModel| t.transaction)
}

// ---------------------------------------------------------------------------
// Facts about the view of a vector of accounts

proof fn lemma_accounts_view_domain(accounts: Seq<Account>, address: Seq<u8>)
    ensures
        accounts_view(accounts).contains_key(address) <==> exists|i: int|
            0 <= i < accounts.len() && #[trigger] accounts[i].address@ == address,
    decreases accounts.len(),
{
    if accounts.len() > 0 {
        let prefix = accounts.drop_last();
        lemma_accounts_view_domain(prefix, address);
        if accounts_view(prefix).contains_key(address) {
            let i = choose|i: int| 0 <= i < prefix.len() && #[trigger] prefix[i].address@ == address;
            assert(accounts[i].address@ == address);
        }
        if exists|i: int| 0 <= i < accounts.len() && #[trigger] accounts[i].address@ == address {
            let i = choose|i: int| 0 <= i < accounts.len() && #[trigger] accounts[i].address@ == address;
            if i < accounts.len() - 1 {
                assert(prefix[i].address@ == address);
            }
        }
    }
}

proof fn lemma_accounts_view_lookup(accounts: Seq<Account>, i: int)
    requires
        addresses_unique(accounts),
        0 <= i < accounts.len(),
    ensures
        accounts_view(accounts).contains_key(accounts[i].address@),
        accounts_view(accounts)[accounts[i].address@] == accounts[i].assets.as_map(),
    decreases accounts.len(),
{
    let prefix = accounts.drop_last();
    if i < accounts.len() - 1 {
        assert(addresses_unique(prefix)) by {
            assert forall|a: int, b: int|
                0 <= a < prefix.len() && 0 <= b < prefix.len() && a != b implies #[trigger] prefix[a].address@
                != #[trigger] prefix[b].address@ by {
                assert(prefix[a] == accounts[a] && prefix[b] == accounts[b]);
            }
        }
        lemma_accounts_view_lookup(prefix, i);
        assert(accounts[i].address@ != accounts[accounts.len() - 1].address@);
    }
}

proof fn lemma_unique_prefix(accounts: Seq<Account>)
    requires
        addresses_unique(accounts),
        accounts.len() > 0,
    ensures
        addresses_unique(accounts.drop_last()),
{
    let prefix = accounts.drop_last();
    assert forall|a: int, b: int|
        0 <= a < prefix.len() && 0 <= b < prefix.len() && a != b implies #[trigger] prefix[a].address@
        != #[trigger] prefix[b].address@ by {
        assert(prefix[a] == accounts[a] && prefix[b] == accounts[b]);
    }
}

proof fn lemma_accounts_view_update(accounts: Seq<Account>, i: int, account: Account)
    requires
        addresses_unique(accounts),
        0 <= i < accounts.len(),
        account.address@ == accounts[i].address@,
    ensures
        addresses_unique(accounts.update(i, account)),
        accounts_view(accounts.update(i, account)) == accounts_view(accounts).insert(
            account.address@,
            account.assets.as_map(),
        ),
        total(accounts.update(i, account), AssetName::BTC) == total(accounts, AssetName::BTC)
            - amount_of(accounts[i].assets, AssetName::BTC) + amount_of(account.assets, AssetName::BTC),
        total(accounts.update(i, account), AssetName::ETH) == total(accounts, AssetName::ETH)
            - amount_of(accounts[i].assets, AssetName::ETH) + amount_of(account.assets, AssetName::ETH),
    decreases accounts.len(),
{
    let updated = accounts.update(i, account);
    assert forall|a: int, b: int|
        0 <= a < updated.len() && 0 <= b < updated.len() && a != b implies #[trigger] updated[a].address@
        != #[trigger] updated[b].address@ by {
        if a != i && b != i {
            assert(updated[a] == accounts[a] && updated[b] == accounts[b]);
        } else if a == i {
            assert(updated[b] == accounts[b]);
        } else {
            assert(updated[a] == accounts[a]);
        }
    }
    let prefix = accounts.drop_last();
    if i == accounts.len() - 1 {
        assert(updated.drop_last() =~= prefix);
        assert(accounts_view(updated) =~= accounts_view(accounts).insert(
            account.address@,
            account.assets.as_map(),
        ));
    } else {
        lemma_unique_prefix(accounts);
        lemma_accounts_view_update(prefix, i, account);
        assert(updated.drop_last() =~= prefix.update(i, account));
        assert(accounts.last().address@ != account.address@);
        assert(accounts_view(updated) =~= accounts_view(accounts).insert(
            account.address@,
            account.assets.as_map(),
        ));
    }
}

// ---------------------------------------------------------------------------
// Updating a vector of accounts

/// The index of the account that has the address, if there is one.
pub fn find_account(accounts: &Vec<Account>, address: &Address) -> (index: Option<usize>)
    ensures
        match index {
            Some(i) => i < accounts@.len() && accounts@[i as int].address@ == address@,
            None => forall|j: int| 0 <= j < accounts@.len() ==> #[trigger] accounts@[j].address@ != address@,
        },
{
    let mut i: usize = 0;
    while i < accounts.len()
        invariant
            i <= accounts@.len(),
            forall|j: int| 0 <= j < i ==> #[trigger] accounts@[j].address@ != address@,
        decreases accounts.len() - i,
    {
        if accounts[i].address.same_as(address) {
            return Some(i);
        }
        i = i + 1;
    }
    None
}

/// Changes the amount of an asset at an address by `amount`, up or down,
/// making the account or the entry where there is none.
fn change_balance(
    accounts: &mut Vec<Account>,
    address: &Address,
    asset: AssetName,
    amount: u64,
    increase: bool,
)
    requires
        addresses_unique(old(accounts)@),
        increase ==> balance(accounts_view(old(accounts)@), address@, asset) + amount <= u64::MAX,
        !increase ==> balance(accounts_view(old(accounts)@), address@, asset) >= amount,
    ensures
        addresses_unique(final(accounts)@),
        old(accounts)@.len() <= final(accounts)@.len() <= old(accounts)@.len() + 1,
        forall|i: int| 0 <= i < old(accounts)@.len() ==> #[trigger] final(accounts)@[i].address@ == old(accounts)@[i].address@,
        accounts_view(final(accounts)@) == adjust(
            accounts_view(old(accounts)@),
            address@,
            asset,
            if increase {
                amount as int
            } else {
                -(amount as int)
            },
        ),
        forall|k: AssetName|
            #![trigger total(final(accounts)@, k)]
            total(final(accounts)@, k) == total(old(accounts)@, k) + if k != asset {
                0
            } else if increase {
                amount as int
            } else {
                -(amount as int)
            },
{
    let ghost before = accounts@;
    let ghost delta: int = if increase {
        amount as int
    } else {
        -(amount as int)
    };
    match find_account(accounts, address) {
        Some(i) => {
            proof {
                lemma_accounts_view_lookup(before, i as int);
            }
            let mut assets = accounts[i].assets;
            let current: u64 = match assets.get(asset) {
                Some(v) => v,
                None => 0,
            };
            let next: u64 = if increase {
                current + amount
            } else {
                current - amount
            };
            assets.insert(asset, next);
            let account = Account { address: accounts[i].address.clone(), assets };
            proof {
                lemma_accounts_view_update(before, i as int, account);
            }
            accounts.set(i, account);
            proof {
                let old_view = accounts_view(before);
                assert(accounts_view(accounts@) =~= adjust(old_view, address@, asset, delta)) by {
                    assert(old_view[address@] == before[i as int].assets.as_map());
                    assert(account.assets.as_map() =~= old_view[address@].insert(
                        asset,
                        balance(old_view, address@, asset) + delta,
                    ));
                }
                assert forall|k: AssetName| #![trigger total(accounts@, k)]
                    total(accounts@, k) == total(before, k) + if k != asset {
                        0
                    } else {
                        delta
                    } by {
                    match k {
                        AssetName::BTC => {},
                        AssetName::ETH => {},
                    }
                }
            }
        },
        None => {
            proof {
                lemma_accounts_view_domain(before, address@);
                assert(!accounts_view(before).contains_key(address@));
                assert(!increase ==> amount == 0);
            }
            let mut assets = AssetBalances::new();
            // Where there is no account the balance is zero, so a decrease is by zero.
            assets.insert(asset, amount);
            let account = Account { address: address.clone(), assets };
            accounts.push(account);
            proof {
                assert(accounts@.drop_last() =~= before);
                assert forall|a: int, b: int|
                    0 <= a < accounts@.len() && 0 <= b < accounts@.len() && a != b implies #[trigger] accounts@[a].address@
                    != #[trigger] accounts@[b].address@ by {
                    if a < before.len() && b < before.len() {
                        assert(accounts@[a] == before[a] && accounts@[b] == before[b]);
                    } else if a < before.len() {
                        assert(accounts@[a] == before[a]);
                    } else {
                        assert(accounts@[b] == before[b]);
                    }
                }
                assert(accounts_view(accounts@) =~= adjust(accounts_view(before), address@, asset, delta));
                assert forall|k: AssetName| #![trigger total(accounts@, k)]
                    total(accounts@, k) == total(before, k) + if k != asset {
                        0
                    } else {
                        delta
                    } by {
                    assert(total(accounts@, k) == total(before, k) + amount_of(account.assets, k));
                    match k {
                        AssetName::BTC => {},
                        AssetName::ETH => {},
                    }
                }
            }
        },
    }
}

/// Running transactions one sequence after another is running their
/// concatenation.
pub proof fn lemma_apply_append(m: Balances, a: Seq<TransactionModel>, b: Seq<TransactionModel>)
    ensures
        apply_transactions(m, a + b) == apply_transactions(apply_transactions(m, a), b),
        transactions_in_range(m, a + b) == (transactions_in_range(m, a) && transactions_in_range(
            apply_transactions(m, a),
            b,
        )),
        forall|k: AssetName| #[trigger] topped_up(a + b, k) == topped_up(a, k) + topped_up(b, k),
    decreases b.len(),
{
    if b.len() == 0 {
        assert(a + b =~= a);
    } else {
        lemma_apply_append(m, a, b.drop_last());
        assert((a + b).drop_last() =~= a + b.drop_last());
        assert((a + b).last() == b.last());
        assert forall|k: AssetName| #[trigger] topped_up(a + b, k) == topped_up(a, k) + topped_up(b, k) by {
            assert(topped_up(a + b.drop_last(), k) == topped_up(a, k) + topped_up(b.drop_last(), k));
        }
    }
}

/// The balances after a transaction, applied to a vector of accounts.
fn apply_to_accounts(accounts: &mut Vec<Account>, t: &UnsignedTransaction)
    requires
        addresses_unique(old(accounts)@),
        transaction_in_range(accounts_view(old(accounts)@), t@),
    ensures
        addresses_unique(final(accounts)@),
        accounts_view(final(accounts)@) == apply_transaction(accounts_view(old(accounts)@), t@),
        forall|k: AssetName| #[trigger] total(final(accounts)@, k) == total(old(accounts)@, k) + topup_amount(t@, k),
{
    match t {
        UnsignedTransaction::TopUpTransaction { receiver_addr, info } => {
            change_balance(accounts, receiver_addr, info.asset_name, info.amount, true);
        },
        UnsignedTransaction::ValueTransferTransaction { sender_addr, receiver_addr, info } => {
            change_balance(accounts, receiver_addr, info.asset_name, info.amount, true);
            change_balance(accounts, sender_addr, info.asset_name, info.amount, false);
        },
    }
}

/// The balances after the transactions, in order, applied to a vector of accounts.
fn apply_transactions_to_accounts(accounts: &mut Vec<Account>, transactions: &Vec<SignedTransaction>)
    requires
        addresses_unique(old(accounts)@),
        transactions_in_range(
            accounts_view(old(accounts)@),
            unsigned_of(crate::blockchain::transactions_view(transactions@)),
        ),
    ensures
        addresses_unique(final(accounts)@),
        accounts_view(final(accounts)@) == apply_transactions(
            accounts_view(old(accounts)@),
            unsigned_of(crate::blockchain::transactions_view(transactions@)),
        ),
        forall|k: AssetName| #[trigger] total(final(accounts)@, k) == total(old(accounts)@, k) + topped_up(
            unsigned_of(crate::blockchain::transactions_view(transactions@)),
            k,
        ),
{
    let ghost start = accounts_view(accounts@);
    let ghost ts = unsigned_of(crate::blockchain::transactions_view(transactions@));
    let mut i: usize = 0;
    while i < transactions.len()
        invariant
            i <= transactions@.len(),
            ts == unsigned_of(crate::blockchain::transactions_view(transactions@)),
            transactions_in_range(start, ts),
            addresses_unique(accounts@),
            accounts_view(accounts@) == apply_transactions(start, ts.subrange(0, i as int)),
            forall|k: AssetName| #[trigger] total(accounts@, k) == total(old(accounts)@, k) + topped_up(
                ts.subrange(0, i as int),
                k,
            ),
        decreases transactions.len() - i,
    {
        let ghost done = ts.subrange(0, i as int);
        let ghost rest = ts.subrange(i as int, ts.len() as int);
        proof {
            assert(done + rest =~= ts);
            lemma_apply_append(start, done, rest);
            assert(rest =~= seq![ts[i as int]] + rest.subrange(1, rest.len() as int));
            lemma_apply_append(apply_transactions(start, done), seq![ts[i as int]], rest.subrange(1, rest.len() as int));
            assert(seq![ts[i as int]].drop_last() =~= Seq::<TransactionModel>::empty());
            assert(ts[i as int] == transactions@[i as int].transaction@);
        }
        apply_to_accounts(accounts, &transactions[i].transaction);
        proof {
            assert(ts.subrange(0, i + 1) =~= done + seq![ts[i as int]]);
            lemma_apply_append(start, done, seq![ts[i as int]]);
            assert forall|k: AssetName| #[trigger] topped_up(seq![ts[i as int]], k) == topup_amount(ts[i as int], k) by {
                let single = seq![ts[i as int]];
                assert(single.drop_last() =~= Seq::<TransactionModel>::empty());
                assert(single.last() == ts[i as int]);
                assert(topped_up(single.drop_last(), k) == 0);
            }
        }
        i = i + 1;
    }
    assert(ts.subrange(0, ts.len() as int) =~= ts);
}

/// The accounts that the transactions of the blocks leave, from nothing.
fn convert_blocks_to_accounts(blocks: &Vec<SignedBlock>) -> (accounts: Vec<Account>)
    requires
        transactions_in_range(Map::empty(), chain_transactions(blocks_view(blocks@))),
    ensures
        addresses_unique(accounts@),
        accounts_view(accounts@) == ledger(blocks_view(blocks@)),
        forall|k: AssetName| #[trigger] total(accounts@, k) == topped_up(chain_transactions(blocks_view(blocks@)), k),
{
    let ghost bv = blocks_view(blocks@);
    let ghost all = chain_transactions(bv);
    let mut accounts: Vec<Account> = Vec::new();
    let mut i: usize = 0;
    assert(accounts_view(accounts@) =~= Map::<Seq<u8>, Map<AssetName, int>>::empty());
    while i < blocks.len()
        invariant
            i <= blocks@.len(),
            bv == blocks_view(blocks@),
            all == chain_transactions(bv),
            transactions_in_range(Map::empty(), all),
            addresses_unique(accounts@),
            accounts_view(accounts@) == apply_transactions(Map::empty(), chain_transactions(bv.subrange(0, i as int))),
            forall|k: AssetName| #[trigger] total(accounts@, k) == topped_up(chain_transactions(bv.subrange(0, i as int)), k),
        decreases blocks.len() - i,
    {
        let ghost done = chain_transactions(bv.subrange(0, i as int));
        let ghost this = block_transactions(bv[i as int]);
        proof {
            lemma_chain_in_range_prefix(bv, i + 1);
            assert(chain_transactions(bv.subrange(0, i + 1)) == done + this) by {
                assert(bv.subrange(0, i + 1).drop_last() =~= bv.subrange(0, i as int));
            }
            lemma_apply_append(Map::empty(), done, this);
            assert(this == unsigned_of(crate::blockchain::transactions_view(blocks@[i as int].block.transactions@)));
        }
        apply_transactions_to_accounts(&mut accounts, &blocks[i].block.transactions);
        i = i + 1;
    }
    assert(bv.subrange(0, bv.len() as int) =~= bv);
    accounts
}


// ---------------------------------------------------------------------------
// Folding one set of balances into another

/// The amount of an asset in an asset map; zero where there is no entry.
pub open spec fn asset_amount(m: Map<AssetName, int>, asset: AssetName) -> int {
    if m.contains_key(asset) {
        m[asset]
    } else {
        0
    }
}

/// The asset map of an address; empty where there is none.
pub open spec fn assets_at(m: Balances, address: Seq<u8>) -> Map<AssetName, int> {
    if m.contains_key(address) {
        m[address]
    } else {
        Map::empty()
    }
}

/// Adds the entries of `delta` to those of `base`, asset by asset.
pub open spec fn merge_assets(base: Map<AssetName, int>, delta: Map<AssetName, int>) -> Map<AssetName, int> {
    Map::new(
        |k: AssetName| base.contains_key(k) || delta.contains_key(k),
        |k: AssetName|
            if delta.contains_key(k) {
                asset_amount(base, k) + delta[k]
            } else {
                base[k]
            },
    )
}

/// Adds the balances of `delta` to those of `base`, address by address:
/// an address of `delta` that `base` lacks is taken over as it is.
pub open spec fn merge(base: Balances, delta: Balances) -> Balances {
    Map::new(
        |a: Seq<u8>| base.contains_key(a) || delta.contains_key(a),
        |a: Seq<u8>|
            if delta.contains_key(a) {
                merge_assets(assets_at(base, a), delta[a])
            } else {
                base[a]
            },
    )
}

/// Whether adding `delta` to `base` keeps every sum within `u64`.
pub open spec fn merge_in_range(base: Balances, delta: Balances) -> bool {
    forall|a: Seq<u8>, k: AssetName|
        #![trigger delta[a][k]]
        delta.contains_key(a) && delta[a].contains_key(k) ==> balance(base, a, k) + delta[a][k] <= u64::MAX
}

proof fn lemma_merge_balance(m: Balances, d: Balances, a: Seq<u8>, k: AssetName)
    ensures
        balance(merge(m, d), a, k) == balance(m, a, k) + balance(d, a, k),
{
}

proof fn lemma_merge_adjust(m: Balances, d: Balances, a: Seq<u8>, k: AssetName, delta: int)
    ensures
        adjust(merge(m, d), a, k, delta) == merge(m, adjust(d, a, k, delta)),
{
    let left = adjust(merge(m, d), a, k, delta);
    let right = merge(m, adjust(d, a, k, delta));
    lemma_merge_balance(m, d, a, k);
    assert forall|b: Seq<u8>| #[trigger] left.contains_key(b) implies left[b] =~= right[b] by {
        if b == a {
            assert forall|j: AssetName| #[trigger] left[b].contains_key(j) <==> right[b].contains_key(j) by {}
            assert forall|j: AssetName| #[trigger] left[b].contains_key(j) implies left[b][j] == right[b][j] by {}
        }
    }
    assert(left =~= right);
}

proof fn lemma_merge_apply_transaction(m: Balances, d: Balances, t: TransactionModel)
    ensures
        apply_transaction(merge(m, d), t) == merge(m, apply_transaction(d, t)),
{
    match t {
        TransactionModel::TopUp { receiver, info } => {
            lemma_merge_adjust(m, d, receiver, info.asset_name, info.amount as int);
        },
        TransactionModel::ValueTransfer { sender, receiver, info } => {
            lemma_merge_adjust(m, d, receiver, info.asset_name, info.amount as int);
            lemma_merge_adjust(
                m,
                adjust(d, receiver, info.asset_name, info.amount as int),
                sender,
                info.asset_name,
                -(info.amount as int),
            );
        },
    }
}

/// Running transactions on balances is adding what they do from nothing.
pub proof fn lemma_apply_is_merge(m: Balances, ts: Seq<TransactionModel>)
    ensures
        apply_transactions(m, ts) == merge(m, apply_transactions(Map::empty(), ts)),
    decreases ts.len(),
{
    if ts.len() == 0 {
        let right = merge(m, Map::empty());
        assert forall|b: Seq<u8>| #[trigger] m.contains_key(b) implies m[b] == right[b] by {}
        assert(m =~= right);
    } else {
        lemma_apply_is_merge(m, ts.drop_last());
        lemma_merge_apply_transaction(m, apply_transactions(Map::empty(), ts.drop_last()), ts.last());
    }
}

/// The ledger of a chain with one more block is the ledger of the chain
/// with the balances of the new block's transactions added.
pub proof fn lemma_ledger_incremental(blocks: Seq<SignedBlockModel>, block: SignedBlockModel)
    ensures
        ledger(blocks.push(block)) == merge(
            ledger(blocks),
            apply_transactions(Map::empty(), block_transactions(block)),
        ),
{
    assert(blocks.push(block).drop_last() =~= blocks);
    lemma_apply_append(Map::empty(), chain_transactions(blocks), block_transactions(block));
    lemma_apply_is_merge(ledger(blocks), block_transactions(block));
}

/// Folding a block into the state that a chain leaves gives the state that
/// the chain with that block leaves: `recalculate_state` after
/// `initialize(blocks)` agrees with `initialize` of the longer chain.
pub proof fn lemma_recalculate_extends_chain(blocks: Seq<SignedBlock>, block: SignedBlock, before: State, after: State)
    requires
        before.balances() == ledger(blocks_view(blocks)),
        after.balances() == merge(
            before.balances(),
            apply_transactions(Map::empty(), block_transactions(block@)),
        ),
    ensures
        after.balances() == ledger(blocks_view(blocks.push(block))),
{
    assert(blocks_view(blocks.push(block)) =~= blocks_view(blocks).push(block@));
    lemma_ledger_incremental(blocks_view(blocks), block@);
}

proof fn lemma_adjust_commute(m: Balances, a: Seq<u8>, k: AssetName, d1: int, b: Seq<u8>, j: AssetName, d2: int)
    ensures
        adjust(adjust(m, a, k, d1), b, j, d2) == adjust(adjust(m, b, j, d2), a, k, d1),
{
    let left = adjust(adjust(m, a, k, d1), b, j, d2);
    let right = adjust(adjust(m, b, j, d2), a, k, d1);
    assert forall|c: Seq<u8>| #[trigger] left.contains_key(c) implies left[c] =~= right[c] by {}
    assert(left =~= right);
}

proof fn lemma_apply_transaction_commute(m: Balances, t1: TransactionModel, t2: TransactionModel)
    ensures
        apply_transaction(apply_transaction(m, t1), t2) == apply_transaction(apply_transaction(m, t2), t1),
{
    match (t1, t2) {
        (TransactionModel::TopUp { receiver: r1, info: i1 }, TransactionModel::TopUp { receiver: r2, info: i2 }) => {
            lemma_adjust_commute(m, r1, i1.asset_name, i1.amount as int, r2, i2.asset_name, i2.amount as int);
        },
        (
            TransactionModel::TopUp { receiver: r1, info: i1 },
            TransactionModel::ValueTransfer { sender: s2, receiver: r2, info: i2 },
        ) => {
            let x = adjust(m, r2, i2.asset_name, i2.amount as int);
            lemma_adjust_commute(m, r1, i1.asset_name, i1.amount as int, r2, i2.asset_name, i2.amount as int);
            lemma_adjust_commute(
                adjust(m, r2, i2.asset_name, i2.amount as int),
                r1,
                i1.asset_name,
                i1.amount as int,
                s2,
                i2.asset_name,
                -(i2.amount as int),
            );
        },
        (
            TransactionModel::ValueTransfer { sender: s1, receiver: r1, info: i1 },
            TransactionModel::TopUp { receiver: r2, info: i2 },
        ) => {
            lemma_adjust_commute(m, r1, i1.asset_name, i1.amount as int, r2, i2.asset_name, i2.amount as int);
            lemma_adjust_commute(
                adjust(m, r1, i1.asset_name, i1.amount as int),
                s1,
                i1.asset_name,
                -(i1.amount as int),
                r2,
                i2.asset_name,
                i2.amount as int,
            );
        },
        (
            TransactionModel::ValueTransfer { sender: s1, receiver: r1, info: i1 },
            TransactionModel::ValueTransfer { sender: s2, receiver: r2, info: i2 },
        ) => {
            let k1 = i1.asset_name;
            let k2 = i2.asset_name;
            let a1 = i1.amount as int;
            let a2 = i2.amount as int;
            // Both orders are four adjustments, and adjustments commute.
            let m1 = adjust(m, r1, k1, a1);
            let m2 = adjust(m1, s1, k1, -a1);
            lemma_adjust_commute(m1, s1, k1, -a1, r2, k2, a2);
            lemma_adjust_commute(m, r1, k1, a1, r2, k2, a2);
            let n1 = adjust(m, r2, k2, a2);
            lemma_adjust_commute(adjust(n1, r1, k1, a1), s1, k1, -a1, s2, k2, -a2);
            lemma_adjust_commute(n1, r1, k1, a1, s2, k2, -a2);
        },
    }
}

proof fn lemma_move_to_end(m: Balances, a: Seq<TransactionModel>, x: TransactionModel, b: Seq<TransactionModel>)
    ensures
        apply_transactions(m, a + seq![x] + b) == apply_transactions(m, (a + b).push(x)),
    decreases b.len(),
{
    if b.len() == 0 {
        assert(a + seq![x] + b =~= (a + b).push(x));
    } else {
        let shorter = b.drop_last();
        let y = b.last();
        let base = apply_transactions(m, a + shorter);
        let left = a + seq![x] + b;
        let right = (a + b).push(x);
        lemma_move_to_end(m, a, x, shorter);
        assert(left.drop_last() =~= a + seq![x] + shorter);
        assert(left.last() == y);
        assert(apply_transactions(m, left) == apply_transaction(
            apply_transactions(m, a + seq![x] + shorter),
            y,
        ));
        let with_x = (a + shorter).push(x);
        assert(with_x.drop_last() =~= a + shorter);
        assert(apply_transactions(m, with_x) == apply_transaction(base, x));
        let with_y = (a + shorter).push(y);
        assert(with_y.drop_last() =~= a + shorter);
        assert(apply_transactions(m, with_y) == apply_transaction(base, y));
        assert(right.drop_last() =~= with_y);
        assert(right.last() == x);
        assert(apply_transactions(m, right) == apply_transaction(apply_transactions(m, with_y), x));
        lemma_apply_transaction_commute(base, x, y);
    }
}

/// The balances that transactions leave do not depend on their order:
/// running the same transactions in any order gives the same balances.
pub proof fn lemma_apply_order_independent(m: Balances, ts1: Seq<TransactionModel>, ts2: Seq<TransactionModel>)
    requires
        ts1.to_multiset() == ts2.to_multiset(),
    ensures
        apply_transactions(m, ts1) == apply_transactions(m, ts2),
    decreases ts2.len(),
{
    broadcast use vstd::seq_lib::group_to_multiset_ensures;

    if ts2.len() == 0 {
        assert(ts2.to_multiset().len() == 0);
        assert(ts1.to_multiset().len() == ts1.len());
        assert(ts1.len() == 0);
        assert(ts1 =~= ts2);
    } else {
        let x = ts2.last();
        let rest2 = ts2.drop_last();
        assert(ts2 =~= rest2.push(x));
        assert(ts2.to_multiset().count(x) > 0);
        assert(ts1.contains(x));
        let i = choose|i: int| 0 <= i < ts1.len() && ts1[i] == x;
        let rest1 = ts1.remove(i);
        let a = ts1.subrange(0, i);
        let b = ts1.subrange(i + 1, ts1.len() as int);
        assert(ts1 =~= a + seq![x] + b);
        assert(rest1 =~= a + b);
        lemma_move_to_end(m, a, x, b);
        assert(rest1.to_multiset() =~= rest2.to_multiset());
        lemma_apply_order_independent(m, rest1, rest2);
        assert(rest1.push(x).drop_last() =~= rest1);
        assert(rest2.push(x).drop_last() =~= rest2);
    }
}

/// Two chains that hold the same transactions, in whatever order and
/// however split into blocks, leave the same balances.
pub proof fn lemma_ledger_order_independent(blocks1: Seq<SignedBlockModel>, blocks2: Seq<SignedBlockModel>)
    requires
        chain_transactions(blocks1).to_multiset() == chain_transactions(blocks2).to_multiset(),
    ensures
        ledger(blocks1) == ledger(blocks2),
{
    lemma_apply_order_independent(Map::empty(), chain_transactions(blocks1), chain_transactions(blocks2));
}

/// Two states built from chains that hold the same transactions, in
/// whatever order and however split into blocks, hold the same balances.
pub proof fn lemma_initialize_order_independent(
    blocks1: Seq<SignedBlock>,
    blocks2: Seq<SignedBlock>,
    state1: State,
    state2: State,
)
    requires
        chain_transactions(blocks_view(blocks1)).to_multiset() == chain_transactions(
            blocks_view(blocks2),
        ).to_multiset(),
        state1.balances() == ledger(blocks_view(blocks1)),
        state2.balances() == ledger(blocks_view(blocks2)),
    ensures
        state1.balances() == state2.balances(),
{
    lemma_ledger_order_independent(blocks_view(blocks1), blocks_view(blocks2));
}

/// Every amount lies within `u64`.
pub open spec fn balances_bounded(m: Balances) -> bool {
    forall|a: Seq<u8>, k: AssetName|
        #![trigger m[a][k]]
        m.contains_key(a) && m[a].contains_key(k) ==> 0 <= m[a][k] <= u64::MAX
}

proof fn lemma_bounded_step(m: Balances, t: TransactionModel)
    requires
        balances_bounded(m),
        transaction_in_range(m, t),
    ensures
        balances_bounded(apply_transaction(m, t)),
{
    let r = apply_transaction(m, t);
    match t {
        TransactionModel::TopUp { receiver, info } => {
            assert forall|a: Seq<u8>, k: AssetName|
                #![trigger r[a][k]]
                r.contains_key(a) && r[a].contains_key(k) implies 0 <= r[a][k] <= u64::MAX by {
                if a == receiver && k == info.asset_name {
                } else if a == receiver {
                    assert(r[a][k] == m[a][k]);
                } else {
                    assert(r[a] == m[a]);
                }
            }
        },
        TransactionModel::ValueTransfer { sender, receiver, info } => {
            let m1 = adjust(m, receiver, info.asset_name, info.amount as int);
            assert forall|a: Seq<u8>, k: AssetName|
                #![trigger m1[a][k]]
                m1.contains_key(a) && m1[a].contains_key(k) implies 0 <= m1[a][k] <= u64::MAX by {
                if a == receiver && k == info.asset_name {
                } else if a == receiver {
                    assert(m1[a][k] == m[a][k]);
                } else {
                    assert(m1[a] == m[a]);
                }
            }
            assert forall|a: Seq<u8>, k: AssetName|
                #![trigger r[a][k]]
                r.contains_key(a) && r[a].contains_key(k) implies 0 <= r[a][k] <= u64::MAX by {
                if a == sender && k == info.asset_name {
                } else if a == sender {
                    assert(r[a][k] == m1[a][k]);
                } else {
                    assert(r[a] == m1[a]);
                }
            }
        },
    }
}

proof fn lemma_bounded_run(m: Balances, ts: Seq<TransactionModel>)
    requires
        balances_bounded(m),
        transactions_in_range(m, ts),
    ensures
        balances_bounded(apply_transactions(m, ts)),
    decreases ts.len(),
{
    if ts.len() > 0 {
        lemma_bounded_run(m, ts.drop_last());
        lemma_bounded_step(apply_transactions(m, ts.drop_last()), ts.last());
    }
}

/// Where a chain with one more block stays within range from nothing, the
/// new block's balances can be added to those of the shorter chain within
/// `u64`, as `recalculate_state` needs.
pub proof fn lemma_extended_chain_merges_in_range(blocks: Seq<SignedBlockModel>, block: SignedBlockModel)
    requires
        transactions_in_range(Map::empty(), chain_transactions(blocks.push(block))),
    ensures
        merge_in_range(ledger(blocks), apply_transactions(Map::empty(), block_transactions(block))),
{
    let base = ledger(blocks);
    let delta = apply_transactions(Map::empty(), block_transactions(block));
    let whole = ledger(blocks.push(block));
    assert(balances_bounded(Map::<Seq<u8>, Map<AssetName, int>>::empty()));
    lemma_bounded_run(Map::empty(), chain_transactions(blocks.push(block)));
    lemma_ledger_incremental(blocks, block);
    assert forall|a: Seq<u8>, k: AssetName|
        #![trigger delta[a][k]]
        delta.contains_key(a) && delta[a].contains_key(k) implies balance(base, a, k) + delta[a][k] <= u64::MAX by {
        lemma_merge_balance(base, delta, a, k);
        assert(whole.contains_key(a) && whole[a].contains_key(k));
        assert(whole[a][k] <= u64::MAX);
    }
}

/// A state built from a chain can take a further block wherever both the
/// block on its own and the longer chain stay within range; the state it
/// then holds is the one that the longer chain leaves.
pub proof fn lemma_recalculate_after_initialize(blocks: Seq<SignedBlock>, block: SignedBlock, state: State)
    requires
        state.well_formed(),
        state.balances() == ledger(blocks_view(blocks)),
        transactions_in_range(Map::empty(), block_transactions(block@)),
        transactions_in_range(Map::empty(), chain_transactions(blocks_view(blocks.push(block)))),
    ensures
        merge_in_range(state.balances(), apply_transactions(Map::empty(), block_transactions(block@))),
        merge(state.balances(), apply_transactions(Map::empty(), block_transactions(block@))) == ledger(
            blocks_view(blocks.push(block)),
        ),
{
    assert(blocks_view(blocks.push(block)) =~= blocks_view(blocks).push(block@));
    lemma_extended_chain_merges_in_range(blocks_view(blocks), block@);
    lemma_ledger_incremental(blocks_view(blocks), block@);
}

proof fn lemma_merge_insert(m: Balances, d: Balances, a: Seq<u8>, x: Map<AssetName, int>)
    ensures
        merge(m, d.insert(a, x)) == merge(m, d).insert(a, merge_assets(assets_at(m, a), x)),
{
    let left = merge(m, d.insert(a, x));
    let right = merge(m, d).insert(a, merge_assets(assets_at(m, a), x));
    assert forall|b: Seq<u8>| #[trigger] left.contains_key(b) implies left[b] == right[b] by {}
    assert(left =~= right);
}

// ---------------------------------------------------------------------------
// Checking that amounts stay within range

/// The amount of an asset at an address.
pub fn balance_of(accounts: &Vec<Account>, address: &Address, asset: AssetName) -> (amount: u64)
    requires
        addresses_unique(accounts@),
    ensures
        amount == balance(accounts_view(accounts@), address@, asset),
{
    match find_account(accounts, address) {
        Some(i) => {
            proof {
                lemma_accounts_view_lookup(accounts@, i as int);
            }
            match accounts[i].assets.get(asset) {
                Some(v) => v,
                None => 0,
            }
        },
        None => {
            proof {
                lemma_accounts_view_domain(accounts@, address@);
            }
            0
        },
    }
}

/// Whether the transaction keeps the amounts that it touches within range.
pub fn transaction_fits(accounts: &Vec<Account>, t: &UnsignedTransaction) -> (fits: bool)
    requires
        addresses_unique(accounts@),
    ensures
        fits == transaction_in_range(accounts_view(accounts@), t@),
{
    match t {
        UnsignedTransaction::TopUpTransaction { receiver_addr, info } => {
            let current = balance_of(accounts, receiver_addr, info.asset_name);
            info.amount <= u64::MAX - current
        },
        UnsignedTransaction::ValueTransferTransaction { sender_addr, receiver_addr, info } => {
            let received = balance_of(accounts, receiver_addr, info.asset_name);
            if info.amount > u64::MAX - received {
                return false;
            }
            let sender_balance: u64 = if sender_addr.same_as(receiver_addr) {
                received + info.amount
            } else {
                balance_of(accounts, sender_addr, info.asset_name)
            };
            sender_balance >= info.amount
        },
    }
}

proof fn lemma_in_range_step(m: Balances, done: Seq<TransactionModel>, rest: Seq<TransactionModel>)
    requires
        rest.len() > 0,
    ensures
        transactions_in_range(m, done + rest) == (transactions_in_range(m, done) && transaction_in_range(
            apply_transactions(m, done),
            rest[0],
        ) && transactions_in_range(
            apply_transactions(m, done + seq![rest[0]]),
            rest.subrange(1, rest.len() as int),
        )),
        apply_transactions(m, done + seq![rest[0]]) == apply_transaction(apply_transactions(m, done), rest[0]),
        transactions_in_range(m, done + seq![rest[0]]) == (transactions_in_range(m, done) && transaction_in_range(
            apply_transactions(m, done),
            rest[0],
        )),
{
    let single = seq![rest[0]];
    let tail = rest.subrange(1, rest.len() as int);
    assert(rest =~= single + tail);
    assert(done + rest =~= (done + single) + tail);
    lemma_apply_append(m, done + single, tail);
    assert((done + single).drop_last() =~= done);
}

/// Runs the transactions on the accounts for as long as they stay in range,
/// and reports whether all of them did.
fn run_while_in_range(accounts: &mut Vec<Account>, transactions: &Vec<SignedTransaction>) -> (fits: bool)
    requires
        addresses_unique(old(accounts)@),
    ensures
        addresses_unique(final(accounts)@),
        fits == transactions_in_range(
            accounts_view(old(accounts)@),
            unsigned_of(crate::blockchain::transactions_view(transactions@)),
        ),
        fits ==> accounts_view(final(accounts)@) == apply_transactions(
            accounts_view(old(accounts)@),
            unsigned_of(crate::blockchain::transactions_view(transactions@)),
        ),
{
    let ghost start = accounts_view(accounts@);
    let ghost ts = unsigned_of(crate::blockchain::transactions_view(transactions@));
    let mut i: usize = 0;
    assert(ts.subrange(0, 0) =~= Seq::<TransactionModel>::empty());
    while i < transactions.len()
        invariant
            i <= transactions@.len(),
            ts == unsigned_of(crate::blockchain::transactions_view(transactions@)),
            ts.len() == transactions@.len(),
            start == accounts_view(old(accounts)@),
            addresses_unique(accounts@),
            transactions_in_range(start, ts.subrange(0, i as int)),
            accounts_view(accounts@) == apply_transactions(start, ts.subrange(0, i as int)),
        decreases transactions.len() - i,
    {
        let ghost done = ts.subrange(0, i as int);
        let ghost rest = ts.subrange(i as int, ts.len() as int);
        proof {
            assert(done + rest =~= ts);
            lemma_in_range_step(start, done, rest);
            assert(rest[0] == transactions@[i as int].transaction@);
            assert(ts.subrange(0, i + 1) =~= done + seq![rest[0]]);
        }
        if !transaction_fits(accounts, &transactions[i].transaction) {
            return false;
        }
        apply_to_accounts(accounts, &transactions[i].transaction);
        i = i + 1;
    }
    assert(ts.subrange(0, ts.len() as int) =~= ts);
    true
}

/// Whether the transactions of the chain keep every amount within range
/// when they are run in order from nothing, as `State::initialize` needs.
pub fn is_chain_in_range(blocks: &Vec<SignedBlock>) -> (fits: bool)
    ensures
        fits == transactions_in_range(Map::empty(), chain_transactions(blocks_view(blocks@))),
{
    let ghost bv = blocks_view(blocks@);
    let mut accounts: Vec<Account> = Vec::new();
    assert(accounts_view(accounts@) =~= Map::<Seq<u8>, Map<AssetName, int>>::empty());
    let mut i: usize = 0;
    assert(bv.subrange(0, 0) =~= Seq::<SignedBlockModel>::empty());
    while i < blocks.len()
        invariant
            i <= blocks@.len(),
            bv == blocks_view(blocks@),
            addresses_unique(accounts@),
            transactions_in_range(Map::empty(), chain_transactions(bv.subrange(0, i as int))),
            accounts_view(accounts@) == apply_transactions(Map::empty(), chain_transactions(bv.subrange(0, i as int))),
        decreases blocks.len() - i,
    {
        let ghost done = chain_transactions(bv.subrange(0, i as int));
        let ghost this = block_transactions(bv[i as int]);
        proof {
            assert(bv.subrange(0, i + 1).drop_last() =~= bv.subrange(0, i as int));
            assert(chain_transactions(bv.subrange(0, i + 1)) == done + this);
            lemma_apply_append(Map::empty(), done, this);
            assert(this == unsigned_of(crate::blockchain::transactions_view(blocks@[i as int].block.transactions@)));
        }
        if !run_while_in_range(&mut accounts, &blocks[i].block.transactions) {
            proof {
                lemma_chain_in_range_prefix(bv, i as int + 1);
            }
            return false;
        }
        i = i + 1;
    }
    assert(bv.subrange(0, bv.len() as int) =~= bv);
    true
}

/// A chain in range has every prefix in range.
proof fn lemma_chain_in_range_prefix(blocks: Seq<SignedBlockModel>, i: int)
    requires
        0 <= i <= blocks.len(),
    ensures
        transactions_in_range(Map::empty(), chain_transactions(blocks)) ==> transactions_in_range(
            Map::empty(),
            chain_transactions(blocks.subrange(0, i)),
        ),
    decreases blocks.len(),
{
    if i == blocks.len() {
        assert(blocks.subrange(0, i) =~= blocks);
    } else {
        let prefix = blocks.drop_last();
        lemma_apply_append(Map::empty(), chain_transactions(prefix), block_transactions(blocks.last()));
        lemma_chain_in_range_prefix(prefix, i);
        assert(prefix.subrange(0, i) =~= blocks.subrange(0, i));
    }
}

// ---------------------------------------------------------------------------
// The state of a peer

/// The balances of every account and the hash of the last block.
pub struct State {
    pub accounts: Vec<Account>,
    pub hash_of_last_block: crate::blockchain::Hash,
}

impl State {
    /// No two accounts share an address.
    pub open spec fn well_formed(&self) -> bool {
        addresses_unique(self.accounts@)
    }

    /// The balances that the accounts hold.
    pub open spec fn balances(&self) -> Balances {
        accounts_view(self.accounts@)
    }

    /// Whether no two accounts share an address.
    pub fn is_well_formed(&self) -> (ok: bool)
        ensures
            ok == self.well_formed(),
    {
        let mut i: usize = 0;
        while i < self.accounts.len()
            invariant
                i <= self.accounts@.len(),
                forall|a: int, b: int|
                    0 <= a < i && 0 <= b < i && a != b ==> #[trigger] self.accounts@[a].address@
                        != #[trigger] self.accounts@[b].address@,
            decreases self.accounts.len() - i,
        {
            let mut j: usize = 0;
            while j < i
                invariant
                    j <= i < self.accounts@.len(),
                    forall|b: int| 0 <= b < j ==> #[trigger] self.accounts@[b].address@ != self.accounts@[i as int].address@,
                decreases i - j,
            {
                if self.accounts[j].address.same_as(&self.accounts[i].address) {
                    return false;
                }
                j = j + 1;
            }
            i = i + 1;
        }
        true
    }

    /// The state that a chain of blocks leaves: the balances of its
    /// transactions, run in order from nothing, and the hash of its last
    /// block (all zeros for an empty chain). Every account appears once.
    /// The amounts of each asset over all accounts sum to what the chain
    /// tops up: transfers move amounts and never make or destroy them.
    pub fn initialize(blocks: Vec<SignedBlock>) -> (state: State)
        requires
            transactions_in_range(Map::empty(), chain_transactions(blocks_view(blocks@))),
        ensures
            state.well_formed(),
            state.balances() == ledger(blocks_view(blocks@)),
            state.hash_of_last_block@ == if blocks@.len() == 0 {
                Seq::new(32, |i: int| 0u8)
            } else {
                blocks@.last().block.hash@
            },
            forall|k: AssetName|
                #[trigger] total(state.accounts@, k) == topped_up(chain_transactions(blocks_view(blocks@)), k),
    {
        let hash_of_last_block: crate::blockchain::Hash = if blocks.len() > 0 {
            blocks[blocks.len() - 1].block.hash
        } else {
            [0u8; 32]
        };
        assert(blocks@.len() == 0 ==> hash_of_last_block@ =~= Seq::new(32, |i: int| 0u8));
        let accounts = convert_blocks_to_accounts(&blocks);
        State { accounts, hash_of_last_block }
    }

    /// Whether `recalculate_state` can take the block: its transactions stay
    /// within range when run from nothing, and adding their balances to the
    /// state's keeps every amount within `u64`.
    pub fn can_recalculate_state(&self, new_block: &SignedBlock) -> (ok: bool)
        requires
            self.well_formed(),
        ensures
            ok == (transactions_in_range(Map::empty(), block_transactions(new_block@)) && merge_in_range(
                self.balances(),
                apply_transactions(Map::empty(), block_transactions(new_block@)),
            )),
    {
        self.can_fold(&new_block.block.transactions)
    }

    /// Whether the transactions stay within range when run from nothing,
    /// and adding their balances to the state's keeps every amount within
    /// `u64`.
    pub fn can_fold(&self, transactions: &Vec<SignedTransaction>) -> (ok: bool)
        requires
            self.well_formed(),
        ensures
            ok == (transactions_in_range(Map::empty(), unsigned_of(crate::blockchain::transactions_view(transactions@))) && merge_in_range(
                self.balances(),
                apply_transactions(Map::empty(), unsigned_of(crate::blockchain::transactions_view(transactions@))),
            )),
    {
        let ghost ts = unsigned_of(crate::blockchain::transactions_view(transactions@));
        let mut updates: Vec<Account> = Vec::new();
        assert(accounts_view(updates@) =~= Map::<Seq<u8>, Map<AssetName, int>>::empty());
        if !run_while_in_range(&mut updates, transactions) {
            return false;
        }
        let ghost base = self.balances();
        let ghost delta = accounts_view(updates@);
        let mut j: usize = 0;
        assert(updates@.subrange(0, 0) =~= Seq::<Account>::empty());
        assert(accounts_view(updates@.subrange(0, 0)) =~= Map::<Seq<u8>, Map<AssetName, int>>::empty());
        while j < updates.len()
            invariant
                j <= updates@.len(),
                addresses_unique(updates@),
                addresses_unique(self.accounts@),
                base == self.balances(),
                delta == accounts_view(updates@),
                ts == unsigned_of(crate::blockchain::transactions_view(transactions@)),
                delta == apply_transactions(Map::empty(), ts),
                transactions_in_range(Map::empty(), ts),
                merge_in_range(base, accounts_view(updates@.subrange(0, j as int))),
            decreases updates.len() - j,
        {
            let ghost prefix = accounts_view(updates@.subrange(0, j as int));
            let ghost address = updates@[j as int].address@;
            let ghost x = updates@[j as int].assets.as_map();
            proof {
                assert(updates@.subrange(0, j + 1).drop_last() =~= updates@.subrange(0, j as int));
                assert(accounts_view(updates@.subrange(0, j + 1)) == prefix.insert(address, x));
                lemma_accounts_view_lookup(updates@, j as int);
            }
            let update = &updates[j];
            match update.assets.get(AssetName::BTC) {
                Some(amount) => {
                    if amount > u64::MAX - balance_of(&self.accounts, &update.address, AssetName::BTC) {
                        assert(delta[address][AssetName::BTC] == amount);
                        return false;
                    }
                },
                None => {},
            }
            match update.assets.get(AssetName::ETH) {
                Some(amount) => {
                    if amount > u64::MAX - balance_of(&self.accounts, &update.address, AssetName::ETH) {
                        assert(delta[address][AssetName::ETH] == amount);
                        return false;
                    }
                },
                None => {},
            }
            proof {
                let next = prefix.insert(address, x);
                assert forall|a: Seq<u8>, k: AssetName|
                    #![trigger next[a][k]]
                    next.contains_key(a) && next[a].contains_key(k) implies balance(base, a, k) + next[a][k] <= u64::MAX by {
                    if a == address {
                        match k { AssetName::BTC => {}, AssetName::ETH => {} }
                    } else {
                        assert(prefix[a][k] == next[a][k]);
                    }
                }
            }
            j = j + 1;
        }
        assert(updates@.subrange(0, updates@.len() as int) =~= updates@);
        true
    }

    /// Adds the balances of the new block's transactions (run in order from
    /// nothing) to the state: to the account of each address that has one,
    /// asset by asset, or as a new account. The hash of the last block is
    /// left as it is.
    pub fn recalculate_state(&mut self, new_block: &SignedBlock)
        requires
            old(self).well_formed(),
            transactions_in_range(Map::empty(), block_transactions(new_block@)),
            merge_in_range(
                old(self).balances(),
                apply_transactions(Map::empty(), block_transactions(new_block@)),
            ),
        ensures
            final(self).well_formed(),
            final(self).balances() == merge(
                old(self).balances(),
                apply_transactions(Map::empty(), block_transactions(new_block@)),
            ),
            final(self).accounts@.len() >= old(self).accounts@.len(),
            forall|i: int|
                0 <= i < old(self).accounts@.len() ==> #[trigger] final(self).accounts@[i].address@
                    == old(self).accounts@[i].address@,
            final(self).hash_of_last_block == old(self).hash_of_last_block,
            forall|k: AssetName|
                #[trigger] total(final(self).accounts@, k) == total(old(self).accounts@, k) + topped_up(
                    block_transactions(new_block@),
                    k,
                ),
    {
        let ghost start = self.balances();
        let mut updates: Vec<Account> = Vec::new();
        assert(accounts_view(updates@) =~= Map::<Seq<u8>, Map<AssetName, int>>::empty());
        apply_transactions_to_accounts(&mut updates, &new_block.block.transactions);
        let ghost delta = accounts_view(updates@);
        assert(delta == apply_transactions(Map::empty(), block_transactions(new_block@)));
        let mut j: usize = 0;
        assert(accounts_view(updates@.subrange(0, 0)) =~= Map::<Seq<u8>, Map<AssetName, int>>::empty());
        assert(merge(start, Map::empty()) =~= start) by {
            assert forall|b: Seq<u8>| #[trigger] start.contains_key(b) implies start[b] == merge(start, Map::empty())[b] by {}
        }
        assert(updates@.subrange(0, 0) =~= Seq::<Account>::empty());
        while j < updates.len()
            invariant
                j <= updates@.len(),
                addresses_unique(updates@),
                delta == accounts_view(updates@),
                merge_in_range(start, delta),
                addresses_unique(self.accounts@),
                accounts_view(self.accounts@) == merge(start, accounts_view(updates@.subrange(0, j as int))),
                self.hash_of_last_block == old(self).hash_of_last_block,
                self.accounts@.len() >= old(self).accounts@.len(),
                forall|i: int|
                    0 <= i < old(self).accounts@.len() ==> #[trigger] self.accounts@[i].address@
                        == old(self).accounts@[i].address@,
                forall|k: AssetName|
                    #[trigger] total(self.accounts@, k) == total(old(self).accounts@, k) + total(
                        updates@.subrange(0, j as int),
                        k,
                    ),
            decreases updates.len() - j,
        {
            let ghost current = accounts_view(self.accounts@);
            let ghost prefix = accounts_view(updates@.subrange(0, j as int));
            let ghost address = updates@[j as int].address@;
            let ghost x = updates@[j as int].assets.as_map();
            proof {
                assert(updates@.subrange(0, j + 1).drop_last() =~= updates@.subrange(0, j as int));
                assert(accounts_view(updates@.subrange(0, j + 1)) == prefix.insert(address, x));
                lemma_merge_insert(start, prefix, address, x);
                lemma_accounts_view_domain(updates@.subrange(0, j as int), address);
                assert(!prefix.contains_key(address)) by {
                    if prefix.contains_key(address) {
                        let i = choose|i: int| 0 <= i < j && #[trigger] updates@.subrange(0, j as int)[i].address@ == address;
                        assert(updates@[i].address@ == address);
                    }
                }
                lemma_accounts_view_lookup(updates@, j as int);
                assert(delta[address] == x);
                assert(forall|k: AssetName| #[trigger] balance(current, address, k) == balance(start, address, k));
                assert(total(updates@.subrange(0, j + 1), AssetName::BTC) == total(updates@.subrange(0, j as int), AssetName::BTC) + amount_of(updates@[j as int].assets, AssetName::BTC));
                assert(total(updates@.subrange(0, j + 1), AssetName::ETH) == total(updates@.subrange(0, j as int), AssetName::ETH) + amount_of(updates@[j as int].assets, AssetName::ETH));
            }
            let ghost accounts_at_start = self.accounts@;
            let update = &updates[j];
            match find_account(&self.accounts, &update.address) {
                Some(_) => {
                    let ghost before = self.accounts@;
                    proof {
                        lemma_accounts_view_domain(before, address);
                    }
                    match update.assets.get(AssetName::BTC) {
                        Some(amount) => {
                            assert(x.contains_key(AssetName::BTC) && x[AssetName::BTC] == amount);
                            change_balance(&mut self.accounts, &update.address, AssetName::BTC, amount, true);
                        },
                        None => {},
                    }
                    let ghost middle = accounts_view(self.accounts@);
                    assert(balance(middle, address, AssetName::ETH) == balance(start, address, AssetName::ETH));
                    match update.assets.get(AssetName::ETH) {
                        Some(amount) => {
                            assert(x.contains_key(AssetName::ETH) && x[AssetName::ETH] == amount);
                            change_balance(&mut self.accounts, &update.address, AssetName::ETH, amount, true);
                        },
                        None => {},
                    }
                    proof {
                        let after = accounts_view(self.accounts@);
                        let expected = current.insert(address, merge_assets(assets_at(start, address), x));
                        assert(current.contains_key(address));
                        assert(current[address] == assets_at(start, address));
                        assert forall|b: Seq<u8>| #[trigger] after.contains_key(b) implies after[b] =~= expected[b] by {
                            if b == address {
                                assert forall|k: AssetName| #[trigger] after[b].contains_key(k) <==> expected[b].contains_key(k) by {
                                    match k { AssetName::BTC => {}, AssetName::ETH => {} }
                                }
                                assert forall|k: AssetName| #[trigger] after[b].contains_key(k) implies after[b][k] == expected[b][k] by {
                                    match k { AssetName::BTC => {}, AssetName::ETH => {} }
                                }
                            }
                        }
                        assert(after =~= expected);
                    }
                },
                None => {
                    proof {
                        lemma_accounts_view_domain(self.accounts@, address);
                        assert(!current.contains_key(address));
                        assert(!start.contains_key(address));
                        assert(merge_assets(assets_at(start, address), x) =~= x);
                    }
                    let account = Account { address: update.address.clone(), assets: update.assets };
                    let ghost before = self.accounts@;
                    self.accounts.push(account);
                    proof {
                        assert(self.accounts@.drop_last() =~= before);
                        assert(forall|k: AssetName| #[trigger] total(self.accounts@, k) == total(before, k) + amount_of(account.assets, k));
                        assert forall|a: int, b: int|
                            0 <= a < self.accounts@.len() && 0 <= b < self.accounts@.len() && a != b implies #[trigger] self.accounts@[a].address@
                            != #[trigger] self.accounts@[b].address@ by {
                            if a < before.len() && b < before.len() {
                                assert(self.accounts@[a] == before[a] && self.accounts@[b] == before[b]);
                            } else if a < before.len() {
                                assert(self.accounts@[a] == before[a]);
                            } else {
                                assert(self.accounts@[b] == before[b]);
                            }
                        }
                    }
                },
            }
            proof {
                assert forall|k: AssetName| #[trigger] total(self.accounts@, k) == total(accounts_at_start, k) + amount_of(updates@[j as int].assets, k) by {
                    match k { AssetName::BTC => {}, AssetName::ETH => {} }
                }
            }
            j = j + 1;
        }
        assert(updates@.subrange(0, updates@.len() as int) =~= updates@);
    }
}

} // verus!
