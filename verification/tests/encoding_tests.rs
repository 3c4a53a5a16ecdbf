use linchain::blockchain::{
    Address, AssetName, SignedTransaction, TransactionInfo, UnsignedBlock, UnsignedTransaction,
};
use linchain::encoding::{
    are_transactions_encodable, is_signed_transaction_encodable, is_transaction_encodable,
    transactions_bytes, unsigned_block_bytes, unsigned_transaction_bytes,
};

fn name(s: &str) -> Vec<u8> {
    bcs::to_bytes(s).unwrap()
}

fn info(amount: u64, asset: AssetName, timestamp: i64) -> TransactionInfo {
    TransactionInfo { amount, asset_name: asset, timestamp }
}

/// The map that carries the fields of a transaction, built from the encodings
/// that bcs gives each field.
fn expected_fields(t: &UnsignedTransaction) -> Vec<u8> {
    let mut out = Vec::new();
    let (info, sender, receiver) = match t {
        UnsignedTransaction::ValueTransferTransaction { sender_addr, receiver_addr, info } => {
            (info, Some(sender_addr), receiver_addr)
        }
        UnsignedTransaction::TopUpTransaction { receiver_addr, info } => (info, None, receiver_addr),
    };
    out.push(if sender.is_some() { 5 } else { 4 });
    out.extend(name("amount"));
    out.extend(bcs::to_bytes(&info.amount).unwrap());
    out.extend(name("timestamp"));
    out.extend(bcs::to_bytes(&info.timestamp).unwrap());
    out.extend(name("asset_name"));
    out.push(match info.asset_name {
        AssetName::BTC => 0,
        AssetName::ETH => 1,
    });
    if let Some(sender) = sender {
        out.extend(name("sender_addr"));
        out.extend(bcs::to_bytes(&sender.0).unwrap());
    }
    out.extend(name("receiver_addr"));
    out.extend(bcs::to_bytes(&receiver.0).unwrap());
    out
}

fn top_up() -> UnsignedTransaction {
    UnsignedTransaction::TopUpTransaction {
        receiver_addr: Address(vec![1, 2, 3]),
        info: info(5, AssetName::ETH, 1_748_613_600_000_000_000),
    }
}

fn transfer() -> UnsignedTransaction {
    UnsignedTransaction::ValueTransferTransaction {
        sender_addr: Address(vec![9; 40]),
        receiver_addr: Address(vec![]),
        info: info(300, AssetName::BTC, -1),
    }
}

#[test]
fn top_up_bytes_by_hand() {
    let mut expected = vec![1u8, 4];
    expected.extend([6, b'a', b'm', b'o', b'u', b'n', b't', 5, 0, 0, 0, 0, 0, 0, 0]);
    expected.extend([9]);
    expected.extend(b"timestamp");
    expected.extend(1_748_613_600_000_000_000i64.to_le_bytes());
    expected.extend([10]);
    expected.extend(b"asset_name");
    expected.push(1);
    expected.extend([13]);
    expected.extend(b"receiver_addr");
    expected.extend([3, 1, 2, 3]);
    assert_eq!(unsigned_transaction_bytes(&top_up()), expected);
}

#[test]
fn transfer_bytes_follow_field_encodings() {
    let t = transfer();
    let mut expected = vec![0u8];
    expected.extend(expected_fields(&t));
    assert_eq!(unsigned_transaction_bytes(&t), expected);
    // A negative moment travels as its two's complement.
    assert!(expected_fields(&t).windows(8).any(|w| w == [0xff; 8]));
}

#[test]
fn signed_transactions_and_blocks() {
    let first = SignedTransaction {
        transaction: top_up(),
        signature: "ab".repeat(70),
        public_key: vec![2; 33],
    };
    let second = SignedTransaction {
        transaction: transfer(),
        signature: String::new(),
        public_key: vec![],
    };
    let signed_entry = |t: &SignedTransaction| {
        let mut out = vec![3u8];
        out.extend(name("signature"));
        out.extend(bcs::to_bytes(&t.signature).unwrap());
        out.extend(name("public_key"));
        out.extend(bcs::to_bytes(&t.public_key).unwrap());
        out.extend(name(match t.transaction {
            UnsignedTransaction::ValueTransferTransaction { .. } => "ValueTransferTransaction",
            UnsignedTransaction::TopUpTransaction { .. } => "TopUpTransaction",
        }));
        out.extend(expected_fields(&t.transaction));
        out
    };
    let mut expected = vec![2u8];
    expected.extend(signed_entry(&first));
    expected.extend(signed_entry(&second));
    // The signature of the first is 140 bytes long: its length takes two bytes.
    assert_eq!(&signed_entry(&first)[11..13], &[140, 1]);
    let transactions = vec![first, second];
    assert!(are_transactions_encodable(&transactions));
    assert_eq!(transactions_bytes(&transactions), expected);

    let block = UnsignedBlock {
        transactions,
        hash: [4; 32],
        previous_block_hash: [5; 32],
    };
    let mut expected_block = expected.clone();
    expected_block.extend([4; 32]);
    expected_block.extend([5; 32]);
    assert_eq!(unsigned_block_bytes(&block), expected_block);
}

#[test]
fn empty_transaction_list_is_one_zero_byte() {
    assert_eq!(transactions_bytes(&vec![]), vec![0u8]);
}

#[test]
fn ordinary_transactions_are_encodable() {
    assert!(is_transaction_encodable(&top_up()));
    assert!(is_signed_transaction_encodable(&SignedTransaction {
        transaction: transfer(),
        signature: "é".to_string(),
        public_key: vec![1],
    }));
}
