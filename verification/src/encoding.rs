//! The wire format of transactions and blocks. It is the format in which
//! transactions are signed and blocks are hashed and signed: BCS, as the
//! serde attributes of the data types lay it out.
//!
//! Integers are little-endian; lengths and enum variant indices are
//! ULEB128-encoded; byte vectors and strings are a length followed by their
//! bytes; fixed-size hashes are their 32 bytes. A struct whose fields are
//! flattened by serde travels as a map: the number of entries, then each
//! entry as its encoded name followed by its encoded value, entries ordered
//! by the bytes of their encoded names (so shorter names come first).
use vstd::prelude::*;
use vstd::utf8::encode_utf8;
use crate::blockchain::{
    AssetName, SignedTransaction, SignedTransactionModel, TransactionInfo, TransactionModel,
    UnsignedBlock, UnsignedBlockModel, UnsignedTransaction, transactions_view,
};

verus! {

/// The longest sequence that the format can carry.
pub const MAX_SEQUENCE_LENGTH: usize = 2147483647;

/// The ULEB128 encoding of `n`: seven bits per byte, low bits first, the
/// high bit set on every byte but the last.
pub open spec fn uleb128(n: nat) -> Seq<u8>
    decreases n,
{
    if n < 128 {
        seq![n as u8]
    } else {
        seq![((n % 128) + 128) as u8] + uleb128(n / 128)
    }
}

/// The `count` low bytes of `x`, least significant first.
pub open spec fn le_bytes(x: nat, count: nat) -> Seq<u8>
    decreases count,
{
    if count == 0 {
        seq![]
    } else {
        seq![(x % 256) as u8] + le_bytes(x / 256, (count - 1) as nat)
    }
}

pub open spec fn encode_u64(x: u64) -> Seq<u8> {
    le_bytes(x as nat, 8)
}

/// A signed integer travels as the unsigned integer with the same bits.
pub open spec fn encode_i64(x: i64) -> Seq<u8> {
    encode_u64(x as u64)
}

/// A length-prefixed byte sequence.
pub open spec fn encode_bytes(b: Seq<u8>) -> Seq<u8> {
    uleb128(b.len()) + b
}

/// A string: its UTF-8 bytes, length-prefixed.
pub open spec fn encode_string(s: Seq<char>) -> Seq<u8> {
    encode_bytes(encode_utf8(s))
}

/// A map entry: the field's name as a string, then the value.
pub open spec fn entry(name: &str, value: Seq<u8>) -> Seq<u8> {
    encode_string(name@) + value
}

pub open spec fn encode_asset(asset: AssetName) -> Seq<u8> {
    match asset {
        AssetName::BTC => uleb128(0),
        AssetName::ETH => uleb128(1),
    }
}

/// The entries that the flattened `TransactionInfo` adds to a map.
pub open spec fn encode_info_entries(info: TransactionInfo) -> Seq<u8> {
    entry("amount", encode_u64(info.amount)) + entry("timestamp", encode_i64(info.timestamp))
        + entry("asset_name", encode_asset(info.asset_name))
}

/// The map that a transaction's variant carries.
pub open spec fn encode_transaction_fields(t: TransactionModel) -> Seq<u8> {
    match t {
        TransactionModel::ValueTransfer { sender, receiver, info } => uleb128(5)
            + encode_info_entries(info) + entry("sender_addr", encode_bytes(sender))
            + entry("receiver_addr", encode_bytes(receiver)),
        TransactionModel::TopUp { receiver, info } => uleb128(4) + encode_info_entries(info)
            + entry("receiver_addr", encode_bytes(receiver)),
    }
}

/// An unsigned transaction on its own, as it is signed: the variant's index,
/// then its map.
pub open spec fn encode_unsigned_transaction(t: TransactionModel) -> Seq<u8> {
    match t {
        TransactionModel::ValueTransfer { .. } => uleb128(0) + encode_transaction_fields(t),
        TransactionModel::TopUp { .. } => uleb128(1) + encode_transaction_fields(t),
    }
}

/// The entry under which a signed transaction carries its flattened
/// unsigned transaction: the variant's name, then its map.
pub open spec fn encode_variant_entry(t: TransactionModel) -> Seq<u8> {
    match t {
        TransactionModel::ValueTransfer { .. } => entry(
            "ValueTransferTransaction",
            encode_transaction_fields(t),
        ),
        TransactionModel::TopUp { .. } => entry("TopUpTransaction", encode_transaction_fields(t)),
    }
}

/// A signed transaction: a map of the signature, the public key and the
/// flattened unsigned transaction.
pub open spec fn encode_signed_transaction(t: SignedTransactionModel) -> Seq<u8> {
    uleb128(3) + entry("signature", encode_string(t.signature)) + entry(
        "public_key",
        encode_bytes(t.public_key),
    ) + encode_variant_entry(t.transaction)
}

/// The encodings of the transactions, one after the other.
pub open spec fn concat_transactions(ts: Seq<SignedTransactionModel>) -> Seq<u8>
    decreases ts.len(),
{
    if ts.len() == 0 {
        seq![]
    } else {
        concat_transactions(ts.drop_last()) + encode_signed_transaction(ts.last())
    }
}

/// A vector of signed transactions: its length, then each transaction.
pub open spec fn encode_transactions(ts: Seq<SignedTransactionModel>) -> Seq<u8> {
    uleb128(ts.len()) + concat_transactions(ts)
}

/// An unsigned block, as it is signed: its transactions, its hash and the
/// hash of the block before it.
pub open spec fn encode_unsigned_block(b: UnsignedBlockModel) -> Seq<u8> {
    encode_transactions(b.transactions) + b.hash + b.previous_block_hash
}

pub open spec fn fits_length(n: nat) -> bool {
    n <= MAX_SEQUENCE_LENGTH
}

/// Whether every sequence in the transaction is short enough to be encoded.
pub open spec fn transaction_encodable(t: TransactionModel) -> bool {
    match t {
        TransactionModel::ValueTransfer { sender, receiver, .. } => fits_length(sender.len())
            && fits_length(receiver.len()),
        TransactionModel::TopUp { receiver, .. } => fits_length(receiver.len()),
    }
}

pub open spec fn signed_transaction_encodable(t: SignedTransactionModel) -> bool {
    &&& transaction_encodable(t.transaction)
    &&& fits_length(encode_utf8(t.signature).len())
    &&& fits_length(t.public_key.len())
}

pub open spec fn transactions_encodable(ts: Seq<SignedTransactionModel>) -> bool {
    &&& fits_length(ts.len())
    &&& forall|i: int| 0 <= i < ts.len() ==> signed_transaction_encodable(#[trigger] ts[i])
}

/// Appends the bytes to the output.
pub fn append_bytes(out: &mut Vec<u8>, bytes: &[u8])
    ensures
        final(out)@ == old(out)@ + bytes@,
{
    let mut i: usize = 0;
    while i < bytes.len()
        invariant
            i <= bytes.len(),
            out@ == old(out)@ + bytes@.subrange(0, i as int),
        decreases bytes.len() - i,
    {
        out.push(bytes[i]);
        i = i + 1;
    }
    assert(bytes@.subrange(0, bytes@.len() as int) =~= bytes@);
}

/// Appends the ULEB128 encoding of `n`.
pub fn append_uleb128(out: &mut Vec<u8>, n: u32)
    ensures
        final(out)@ == old(out)@ + uleb128(n as nat),
{
    let mut v: u32 = n;
    while v >= 128
        invariant
            out@ + uleb128(v as nat) == old(out)@ + uleb128(n as nat),
        decreases v,
    {
        let byte: u8 = ((v % 128) + 128) as u8;
        proof {
            assert(uleb128(v as nat) == seq![byte] + uleb128((v / 128) as nat));
            assert(out@ + uleb128(v as nat) =~= out@.push(byte) + uleb128((v / 128) as nat));
        }
        out.push(byte);
        v = v / 128;
    }
    proof {
        assert(uleb128(v as nat) == seq![v as u8]);
        assert(out@ + uleb128(v as nat) =~= out@.push(v as u8));
    }
    out.push(v as u8);
}

/// Appends the little-endian bytes of `x`.
pub fn append_u64(out: &mut Vec<u8>, x: u64)
    ensures
        final(out)@ == old(out)@ + encode_u64(x),
{
    let mut v: u64 = x;
    let mut i: usize = 0;
    while i < 8
        invariant
            i <= 8,
            out@ + le_bytes(v as nat, (8 - i) as nat) == old(out)@ + le_bytes(x as nat, 8),
        decreases 8 - i,
    {
        let byte: u8 = (v % 256) as u8;
        proof {
            assert(le_bytes(v as nat, (8 - i) as nat) == seq![byte] + le_bytes(
                (v / 256) as nat,
                (8 - i - 1) as nat,
            ));
            assert(out@ + le_bytes(v as nat, (8 - i) as nat) =~= out@.push(byte) + le_bytes(
                (v / 256) as nat,
                (8 - i - 1) as nat,
            ));
        }
        out.push(byte);
        v = v / 256;
        i = i + 1;
    }
    assert(le_bytes(v as nat, 0) == Seq::<u8>::empty());
    assert(out@ =~= out@ + le_bytes(v as nat, 0));
}

/// Appends a length-prefixed byte sequence.
pub fn append_length_prefixed(out: &mut Vec<u8>, bytes: &[u8])
    requires
        fits_length(bytes@.len()),
    ensures
        final(out)@ == old(out)@ + encode_bytes(bytes@),
{
    append_uleb128(out, bytes.len() as u32);
    append_bytes(out, bytes);
    assert(out@ =~= old(out)@ + encode_bytes(bytes@));
}

/// Appends a string: its UTF-8 bytes, length-prefixed.
pub fn append_string(out: &mut Vec<u8>, s: &str)
    requires
        fits_length(encode_utf8(s@).len()),
    ensures
        final(out)@ == old(out)@ + encode_string(s@),
{
    let bytes = s.as_bytes();
    append_length_prefixed(out, bytes);
}

/// The UTF-8 encoding of a short ASCII name is as long as the name.
pub proof fn lemma_ascii_name_length(name: &str)
    requires
        vstd::string::is_ascii(name),
        name@.len() < 128,
    ensures
        encode_utf8(name@).len() == name@.len(),
{
    vstd::utf8::is_ascii_chars_encode_utf8(name@);
}

pub fn append_asset(out: &mut Vec<u8>, asset: AssetName)
    ensures
        final(out)@ == old(out)@ + encode_asset(asset),
{
    match asset {
        AssetName::BTC => append_uleb128(out, 0),
        AssetName::ETH => append_uleb128(out, 1),
    }
}

/// Appends the entry name `name`; a name is a short ASCII literal.
fn append_name(out: &mut Vec<u8>, name: &str)
    requires
        vstd::string::is_ascii(name),
        name@.len() < 128,
    ensures
        final(out)@ == old(out)@ + encode_string(name@),
{
    proof {
        lemma_ascii_name_length(name);
    }
    append_string(out, name);
}

/// Appends the entries of a flattened `TransactionInfo`.
fn append_info_entries(out: &mut Vec<u8>, info: &TransactionInfo)
    ensures
        final(out)@ == old(out)@ + encode_info_entries(*info),
{
    let ghost start = out@;
    proof {
        reveal_strlit("amount");
    }
    append_name(out, "amount");
    append_u64(out, info.amount);
    let ghost after_amount = out@;
    proof {
        reveal_strlit("timestamp");
    }
    append_name(out, "timestamp");
    append_u64(out, info.timestamp as u64);
    let ghost after_timestamp = out@;
    proof {
        reveal_strlit("asset_name");
    }
    append_name(out, "asset_name");
    append_asset(out, info.asset_name);
    assert(after_amount =~= start + entry("amount", encode_u64(info.amount)));
    assert(after_timestamp =~= after_amount + entry("timestamp", encode_i64(info.timestamp)));
    assert(out@ =~= old(out)@ + encode_info_entries(*info));
}

/// Appends the map that a transaction's variant carries.
fn append_transaction_fields(out: &mut Vec<u8>, t: &UnsignedTransaction)
    requires
        transaction_encodable(t@),
    ensures
        final(out)@ == old(out)@ + encode_transaction_fields(t@),
{
    match t {
        UnsignedTransaction::ValueTransferTransaction { sender_addr, receiver_addr, info } => {
            append_uleb128(out, 5);
            let ghost a = out@;
            append_info_entries(out, info);
            let ghost b = out@;
            proof {
                reveal_strlit("sender_addr");
            }
            append_name(out, "sender_addr");
            append_length_prefixed(out, sender_addr.0.as_slice());
            let ghost c = out@;
            proof {
                reveal_strlit("receiver_addr");
            }
            append_name(out, "receiver_addr");
            append_length_prefixed(out, receiver_addr.0.as_slice());
            assert(c =~= b + entry("sender_addr", encode_bytes(sender_addr@)));
            assert(out@ =~= c + entry("receiver_addr", encode_bytes(receiver_addr@)));
            assert(out@ =~= old(out)@ + encode_transaction_fields(t@));
        },
        UnsignedTransaction::TopUpTransaction { receiver_addr, info } => {
            append_uleb128(out, 4);
            append_info_entries(out, info);
            let ghost b = out@;
            proof {
                reveal_strlit("receiver_addr");
            }
            append_name(out, "receiver_addr");
            append_length_prefixed(out, receiver_addr.0.as_slice());
            assert(out@ =~= b + entry("receiver_addr", encode_bytes(receiver_addr@)));
            assert(out@ =~= old(out)@ + encode_transaction_fields(t@));
        },
    }
}

/// Whether every sequence in the transaction is short enough to be encoded.
pub fn is_transaction_encodable(t: &UnsignedTransaction) -> (ok: bool)
    ensures
        ok == transaction_encodable(t@),
{
    match t {
        UnsignedTransaction::ValueTransferTransaction { sender_addr, receiver_addr, .. } =>
            sender_addr.0.len() <= MAX_SEQUENCE_LENGTH && receiver_addr.0.len()
            <= MAX_SEQUENCE_LENGTH,
        UnsignedTransaction::TopUpTransaction { receiver_addr, .. } => receiver_addr.0.len()
            <= MAX_SEQUENCE_LENGTH,
    }
}

/// Whether every sequence in the signed transaction is short enough to be encoded.
pub fn is_signed_transaction_encodable(t: &SignedTransaction) -> (ok: bool)
    ensures
        ok == signed_transaction_encodable(t@),
{
    is_transaction_encodable(&t.transaction) && t.signature.as_str().as_bytes().len() <= MAX_SEQUENCE_LENGTH
        && t.public_key.len() <= MAX_SEQUENCE_LENGTH
}

/// Whether the vector of signed transactions can be encoded.
pub fn are_transactions_encodable(ts: &Vec<SignedTransaction>) -> (ok: bool)
    ensures
        ok == transactions_encodable(transactions_view(ts@)),
{
    if ts.len() > MAX_SEQUENCE_LENGTH {
        return false;
    }
    let mut i: usize = 0;
    while i < ts.len()
        invariant
            i <= ts.len(),
            forall|j: int| 0 <= j < i ==> signed_transaction_encodable(#[trigger] ts@[j]@),
        decreases ts.len() - i,
    {
        if !is_signed_transaction_encodable(&ts[i]) {
            assert(transactions_view(ts@)[i as int] == ts@[i as int]@);
            return false;
        }
        i = i + 1;
    }
    assert forall|j: int| 0 <= j < transactions_view(ts@).len() implies signed_transaction_encodable(
        #[trigger] transactions_view(ts@)[j],
    ) by {
        assert(transactions_view(ts@)[j] == ts@[j]@);
    }
    true
}

/// The bytes of an unsigned transaction, as it is signed.
pub fn unsigned_transaction_bytes(t: &UnsignedTransaction) -> (bytes: Vec<u8>)
    requires
        transaction_encodable(t@),
    ensures
        bytes@ == encode_unsigned_transaction(t@),
{
    let mut out: Vec<u8> = Vec::new();
    match t {
        UnsignedTransaction::ValueTransferTransaction { .. } => append_uleb128(&mut out, 0),
        UnsignedTransaction::TopUpTransaction { .. } => append_uleb128(&mut out, 1),
    }
    append_transaction_fields(&mut out, t);
    assert(out@ =~= encode_unsigned_transaction(t@));
    out
}

/// Appends a signed transaction.
fn append_signed_transaction(out: &mut Vec<u8>, t: &SignedTransaction)
    requires
        signed_transaction_encodable(t@),
    ensures
        final(out)@ == old(out)@ + encode_signed_transaction(t@),
{
    append_uleb128(out, 3);
    let ghost a = out@;
    proof {
        reveal_strlit("signature");
    }
    append_name(out, "signature");
    append_string(out, t.signature.as_str());
    let ghost b = out@;
    proof {
        reveal_strlit("public_key");
    }
    append_name(out, "public_key");
    append_length_prefixed(out, t.public_key.as_slice());
    let ghost c = out@;
    match &t.transaction {
        UnsignedTransaction::ValueTransferTransaction { .. } => {
            proof {
                reveal_strlit("ValueTransferTransaction");
            }
            append_name(out, "ValueTransferTransaction");
        },
        UnsignedTransaction::TopUpTransaction { .. } => {
            proof {
                reveal_strlit("TopUpTransaction");
            }
            append_name(out, "TopUpTransaction");
        },
    }
    append_transaction_fields(out, &t.transaction);
    assert(b =~= a + entry("signature", encode_string(t.signature@)));
    assert(c =~= b + entry("public_key", encode_bytes(t.public_key@)));
    assert(out@ =~= c + encode_variant_entry(t.transaction@));
    assert(out@ =~= old(out)@ + encode_signed_transaction(t@));
}

/// Appends a vector of signed transactions: its length, then each one.
fn append_transactions(out: &mut Vec<u8>, ts: &Vec<SignedTransaction>)
    requires
        transactions_encodable(transactions_view(ts@)),
    ensures
        final(out)@ == old(out)@ + encode_transactions(transactions_view(ts@)),
{
    let ghost view = transactions_view(ts@);
    append_uleb128(out, ts.len() as u32);
    let ghost start = out@;
    let mut i: usize = 0;
    while i < ts.len()
        invariant
            i <= ts.len(),
            view == transactions_view(ts@),
            transactions_encodable(view),
            out@ == start + concat_transactions(view.subrange(0, i as int)),
        decreases ts.len() - i,
    {
        assert(view[i as int] == ts@[i as int]@);
        append_signed_transaction(out, &ts[i]);
        assert(view.subrange(0, i + 1).drop_last() =~= view.subrange(0, i as int));
        assert(out@ =~= start + concat_transactions(view.subrange(0, i + 1)));
        i = i + 1;
    }
    assert(view.subrange(0, ts.len() as int) =~= view);
    assert(out@ =~= old(out)@ + encode_transactions(view));
}

/// The bytes of a vector of signed transactions, as a block's hash covers them.
pub fn transactions_bytes(ts: &Vec<SignedTransaction>) -> (bytes: Vec<u8>)
    requires
        transactions_encodable(transactions_view(ts@)),
    ensures
        bytes@ == encode_transactions(transactions_view(ts@)),
{
    let mut out: Vec<u8> = Vec::new();
    append_transactions(&mut out, ts);
    assert(out@ =~= encode_transactions(transactions_view(ts@)));
    out
}

/// The bytes of an unsigned block, as it is signed.
pub fn unsigned_block_bytes(b: &UnsignedBlock) -> (bytes: Vec<u8>)
    requires
        transactions_encodable(b@.transactions),
    ensures
        bytes@ == encode_unsigned_block(b@),
{
    let mut out: Vec<u8> = Vec::new();
    append_transactions(&mut out, &b.transactions);
    append_bytes(&mut out, &b.hash);
    append_bytes(&mut out, &b.previous_block_hash);
    assert(out@ =~= encode_unsigned_block(b@));
    out
}

} // verus!
