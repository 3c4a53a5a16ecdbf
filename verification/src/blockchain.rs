//! Transactions and blocks, and the hash that links a block to the one before it.
use vstd::prelude::*;

verus! {

/// A SHA-256 digest.
pub type Hash = [u8; 32];

/// A SEC1-encoded secp256k1 public key.
pub type PublicKey = Vec<u8>;

/// Copies a byte vector element by element.
pub fn copy_bytes(bytes: &Vec<u8>) -> (copy: Vec<u8>)
    ensures
        copy@ == bytes@,
{
    let mut copy: Vec<u8> = Vec::with_capacity(bytes.len());
    let mut i: usize = 0;
    while i < bytes.len()
        invariant
            i <= bytes.len(),
            copy@ == bytes@.subrange(0, i as int),
        decreases bytes.len() - i,
    {
        copy.push(bytes[i]);
        i = i + 1;
    }
    copy
}

/// Compares two byte sequences.
pub fn bytes_equal(a: &[u8], b: &[u8]) -> (equal: bool)
    ensures
        equal == (a@ == b@),
{
    if a.len() != b.len() {
        return false;
    }
    let mut i: usize = 0;
    while i < a.len()
        invariant
            i <= a.len(),
            a@.len() == b@.len(),
            forall|j: int| 0 <= j < i ==> a@[j] == b@[j],
        decreases a.len() - i,
    {
        if a[i] != b[i] {
            return false;
        }
        i = i + 1;
    }
    assert(a@ =~= b@);
    true
}

/// The address of an account: the bytes of its owner's public key.
#[derive(Debug, PartialEq, Eq, Hash)]
pub struct Address(pub Vec<u8>);

impl View for Address {
    type V = Seq<u8>;

    open spec fn view(&self) -> Seq<u8> {
        self.0@
    }
}

impl Address {
    /// Wraps the given bytes as an address.
    pub fn new(bytes: Vec<u8>) -> (address: Address)
        ensures
            address@ == bytes@,
    {
        Address(bytes)
    }

    /// Whether two addresses hold the same bytes.
    pub fn same_as(&self, other: &Address) -> (same: bool)
        ensures
            same == (self@ == other@),
    {
        bytes_equal(self.0.as_slice(), other.0.as_slice())
    }
}

impl Clone for Address {
    fn clone(&self) -> (copy: Address)
        ensures
            copy@ == self@,
    {
        Address(copy_bytes(&self.0))
    }
}


/// The asset that a transaction moves.
#[derive(Debug, Clone, Copy, PartialEq, Eq, Hash, Structural)]
pub enum AssetName {
    BTC,
    ETH,
}

/// The amount, asset and moment of a transaction. The moment is kept as
/// nanoseconds since the Unix epoch, which is how it travels on the wire.
#[derive(Debug, Clone, Copy, PartialEq, Eq, Structural)]
pub struct TransactionInfo {
    pub amount: u64,
    pub asset_name: AssetName,
    pub timestamp: i64,
}

/// A transaction before it is signed.
#[derive(Debug, PartialEq)]
pub enum UnsignedTransaction {
    ValueTransferTransaction { sender_addr: Address, receiver_addr: Address, info: TransactionInfo },
    TopUpTransaction { receiver_addr: Address, info: TransactionInfo },
}

/// What an unsigned transaction says, with addresses as byte sequences.
pub enum TransactionModel {
    ValueTransfer { sender: Seq<u8>, receiver: Seq<u8>, info: TransactionInfo },
    TopUp { receiver: Seq<u8>, info: TransactionInfo },
}

impl TransactionModel {
    /// The details shared by both kinds of transaction.
    pub open spec fn info(self) -> TransactionInfo {
        match self {
            TransactionModel::ValueTransfer { info, .. } => info,
            TransactionModel::TopUp { info, .. } => info,
        }
    }
}

impl View for UnsignedTransaction {
    type V = TransactionModel;

    open spec fn view(&self) -> TransactionModel {
        match self {
            UnsignedTransaction::ValueTransferTransaction { sender_addr, receiver_addr, info } =>
                TransactionModel::ValueTransfer {
                sender: sender_addr@,
                receiver: receiver_addr@,
                info: *info,
            },
            UnsignedTransaction::TopUpTransaction { receiver_addr, info } => TransactionModel::TopUp {
                receiver: receiver_addr@,
                info: *info,
            },
        }
    }
}

impl UnsignedTransaction {
    /// The details shared by both kinds of transaction.
    pub fn info(&self) -> (info: TransactionInfo)
        ensures
            info == self@.info(),
    {
        match self {
            UnsignedTransaction::ValueTransferTransaction { info, .. } => *info,
            UnsignedTransaction::TopUpTransaction { info, .. } => *info,
        }
    }

    /// Whether two transactions say the same.
    pub fn same_as(&self, other: &UnsignedTransaction) -> (same: bool)
        ensures
            same == (self@ == other@),
    {
        match (self, other) {
            (
                UnsignedTransaction::ValueTransferTransaction { sender_addr: s1, receiver_addr: r1, info: i1 },
                UnsignedTransaction::ValueTransferTransaction { sender_addr: s2, receiver_addr: r2, info: i2 },
            ) => s1.same_as(s2) && r1.same_as(r2) && *i1 == *i2,
            (
                UnsignedTransaction::TopUpTransaction { receiver_addr: r1, info: i1 },
                UnsignedTransaction::TopUpTransaction { receiver_addr: r2, info: i2 },
            ) => r1.same_as(r2) && *i1 == *i2,
            _ => false,
        }
    }
}

impl Clone for UnsignedTransaction {
    fn clone(&self) -> (copy: UnsignedTransaction)
        ensures
            copy@ == self@,
    {
        match self {
            UnsignedTransaction::ValueTransferTransaction { sender_addr, receiver_addr, info } =>
                UnsignedTransaction::ValueTransferTransaction {
                sender_addr: sender_addr.clone(),
                receiver_addr: receiver_addr.clone(),
                info: *info,
            },
            UnsignedTransaction::TopUpTransaction { receiver_addr, info } =>
                UnsignedTransaction::TopUpTransaction { receiver_addr: receiver_addr.clone(), info: *info },
        }
    }
}

/// A transaction with the signature of its issuer and the issuer's public key.
#[derive(Debug, PartialEq)]
pub struct SignedTransaction {
    pub transaction: UnsignedTransaction,
    pub signature: String,
    pub public_key: PublicKey,
}

/// What a signed transaction says.
pub struct SignedTransactionModel {
    pub transaction: TransactionModel,
    pub signature: Seq<char>,
    pub public_key: Seq<u8>,
}

impl View for SignedTransaction {
    type V = SignedTransactionModel;

    open spec fn view(&self) -> SignedTransactionModel {
        SignedTransactionModel {
            transaction: self.transaction@,
            signature: self.signature@,
            public_key: self.public_key@,
        }
    }
}

impl SignedTransaction {
    /// Whether two signed transactions say the same.
    pub fn same_as(&self, other: &SignedTransaction) -> (same: bool)
        ensures
            same == (self@ == other@),
    {
        self.transaction.same_as(&other.transaction) && self.signature == other.signature
            && bytes_equal(self.public_key.as_slice(), other.public_key.as_slice())
    }
}

impl Clone for SignedTransaction {
    fn clone(&self) -> (copy: SignedTransaction)
        ensures
            copy@ == self@,
    {
        SignedTransaction {
            transaction: self.transaction.clone(),
            signature: self.signature.clone(),
            public_key: copy_bytes(&self.public_key),
        }
    }
}

/// The views of a sequence of signed transactions.
pub open spec fn transactions_view(transactions: Seq<SignedTransaction>) -> Seq<SignedTransactionModel> {
    transactions.map_values(|t: SignedTransaction| t@)
}

/// Copies the transactions one by one.
pub fn copy_transactions(transactions: &Vec<SignedTransaction>) -> (copy: Vec<SignedTransaction>)
    ensures
        transactions_view(copy@) == transactions_view(transactions@),
{
    let mut copy: Vec<SignedTransaction> = Vec::with_capacity(transactions.len());
    let mut i: usize = 0;
    while i < transactions.len()
        invariant
            i <= transactions.len(),
            copy@.len() == i,
            forall|k: int| 0 <= k < i ==> #[trigger] copy@[k]@ == transactions@[k]@,
        decreases transactions.len() - i,
    {
        copy.push(transactions[i].clone());
        i = i + 1;
    }
    assert(transactions_view(copy@) =~= transactions_view(transactions@));
    copy
}

/// A block of transactions, linked to its predecessor by the predecessor's hash.
#[derive(Debug, PartialEq)]
pub struct UnsignedBlock {
    pub transactions: Vec<SignedTransaction>,
    pub hash: Hash,
    pub previous_block_hash: Hash,
}

/// What an unsigned block says.
pub struct UnsignedBlockModel {
    pub transactions: Seq<SignedTransactionModel>,
    pub hash: Seq<u8>,
    pub previous_block_hash: Seq<u8>,
}

impl View for UnsignedBlock {
    type V = UnsignedBlockModel;

    open spec fn view(&self) -> UnsignedBlockModel {
        UnsignedBlockModel {
            transactions: transactions_view(self.transactions@),
            hash: self.hash@,
            previous_block_hash: self.previous_block_hash@,
        }
    }
}

/// The hash of a block: the SHA-256 digest of the previous block's hash
/// followed by the encoded transactions.
pub open spec fn spec_block_hash(
    transactions: Seq<SignedTransactionModel>,
    previous_block_hash: Seq<u8>,
) -> Seq<u8> {
    crate::crypto::spec_sha256(previous_block_hash + crate::encoding::encode_transactions(transactions))
}

/// The hash of a block is the SHA-256 digest of the previous block's hash
/// followed by exactly the encoding of all its transactions (a count, then
/// every field of every transaction): two blocks after the same hash whose
/// transactions encode differently have digests of different bytes.
pub proof fn lemma_block_hash_covers_transactions(
    transactions: Seq<SignedTransactionModel>,
    other: Seq<SignedTransactionModel>,
    previous_block_hash: Seq<u8>,
)
    ensures
        spec_block_hash(transactions, previous_block_hash) == crate::crypto::spec_sha256(
            previous_block_hash + crate::encoding::encode_transactions(transactions),
        ),
        crate::encoding::encode_transactions(transactions) != crate::encoding::encode_transactions(other) ==> (
        previous_block_hash + crate::encoding::encode_transactions(transactions)) != (previous_block_hash
            + crate::encoding::encode_transactions(other)),
{
    let a = previous_block_hash + crate::encoding::encode_transactions(transactions);
    let b = previous_block_hash + crate::encoding::encode_transactions(other);
    if a == b {
        assert(crate::encoding::encode_transactions(transactions) =~= a.subrange(
            previous_block_hash.len() as int,
            a.len() as int,
        ));
        assert(crate::encoding::encode_transactions(other) =~= b.subrange(
            previous_block_hash.len() as int,
            b.len() as int,
        ));
    }
}

impl UnsignedBlock {
    /// A block of the transactions, linked to the previous block by its hash,
    /// with its own hash computed over both.
    pub fn new(transactions: Vec<SignedTransaction>, previous_block_hash: Hash) -> (block: Self)
        requires
            crate::encoding::transactions_encodable(transactions_view(transactions@)),
        ensures
            block.transactions@ == transactions@,
            block.previous_block_hash == previous_block_hash,
            block.hash@ == spec_block_hash(transactions_view(transactions@), previous_block_hash@),
            block.hash@ == crate::crypto::spec_sha256(
                previous_block_hash@ + crate::encoding::encode_transactions(transactions_view(transactions@)),
            ),
    {
        let hash = Self::calculate_hash(&transactions, &previous_block_hash);
        UnsignedBlock { hash, previous_block_hash, transactions }
    }

    fn calculate_hash(transactions: &Vec<SignedTransaction>, previous_block_hash: &Hash) -> (hash: Hash)
        requires
            crate::encoding::transactions_encodable(transactions_view(transactions@)),
        ensures
            hash@ == spec_block_hash(transactions_view(transactions@), previous_block_hash@),
            hash@ == crate::crypto::spec_sha256(
                previous_block_hash@ + crate::encoding::encode_transactions(transactions_view(transactions@)),
            ),
    {
        let mut data: Vec<u8> = Vec::new();
        crate::encoding::append_bytes(&mut data, previous_block_hash);
        let encoded = crate::encoding::transactions_bytes(transactions);
        crate::encoding::append_bytes(&mut data, encoded.as_slice());
        assert(data@ =~= previous_block_hash@ + crate::encoding::encode_transactions(
            transactions_view(transactions@),
        ));
        crate::crypto::sha256(data.as_slice())
    }
}

impl Clone for UnsignedBlock {
    fn clone(&self) -> (copy: UnsignedBlock)
        ensures
            copy@ == self@,
    {
        UnsignedBlock {
            transactions: copy_transactions(&self.transactions),
            hash: self.hash,
            previous_block_hash: self.previous_block_hash,
        }
    }
}

/// A block with the signature of the peer that made it and that peer's public key.
#[derive(Debug, PartialEq)]
pub struct SignedBlock {
    pub block: UnsignedBlock,
    pub signature: String,
    pub public_key: PublicKey,
}

/// What a signed block says.
pub struct SignedBlockModel {
    pub block: UnsignedBlockModel,
    pub signature: Seq<char>,
    pub public_key: Seq<u8>,
}

impl View for SignedBlock {
    type V = SignedBlockModel;

    open spec fn view(&self) -> SignedBlockModel {
        SignedBlockModel { block: self.block@, signature: self.signature@, public_key: self.public_key@ }
    }
}

impl Clone for SignedBlock {
    fn clone(&self) -> (copy: SignedBlock)
        ensures
            copy@ == self@,
    {
        SignedBlock {
            block: self.block.clone(),
            signature: self.signature.clone(),
            public_key: copy_bytes(&self.public_key),
        }
    }
}

} // verus!
