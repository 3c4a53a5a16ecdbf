use std::sync::mpsc::{channel, RecvError, SendError};

use linchain::blockchain::{Address, AssetName, SignedTransaction, TransactionInfo, UnsignedTransaction};
use linchain::network::{
    combine_multiple_broadcasting_issues_to_result, received, send_errors, sent, InMemoryChannelNetwork, Message,
    NetworkError,
};
use linchain::peer::PeerID;

/// A transfer of one BTC between two empty addresses.
fn default_transaction() -> SignedTransaction {
    SignedTransaction {
        transaction: UnsignedTransaction::ValueTransferTransaction {
            sender_addr: Address(Vec::new()),
            receiver_addr: Address(Vec::new()),
            info: TransactionInfo {
                amount: 1,
                asset_name: AssetName::BTC,
                // 2025-05-30T14:00:00Z
                timestamp: 1_748_613_600_000_000_000,
            },
        },
        signature: String::new(),
        public_key: Vec::new(),
    }
}

#[test]
fn test_display_texts_of_errors() {
    let err = NetworkError::PeerNotFound { peer_id: PeerID(1) };
    assert_eq!(err.message(), "Peer with id=1 not found in network");

    let msg = Message::ClientTransaction(default_transaction());
    let err = NetworkError::SendToPeerFailed { peer_id: PeerID(2), cause: SendError(msg) };
    assert_eq!(
        err.message(),
        "Can't send the message to peer with id=2 due to: sending on a closed channel"
    );

    let err = NetworkError::ReceiveFailed { cause: RecvError };
    assert_eq!(err.message(), "Can't receive the message due to: receiving on a closed channel");
}

#[test]
fn test_send_success() {
    let outgoing_peer_id = PeerID(1);
    let (sender_for_outgoing_peer, receiver_for_outgoing_peer) = channel();
    let (_, incoming_receiver) = channel();
    let network =
        InMemoryChannelNetwork::new(incoming_receiver, vec![(outgoing_peer_id, sender_for_outgoing_peer)]);

    let msg = Message::ClientTransaction(default_transaction());
    assert!(network.send(outgoing_peer_id, msg.clone()).is_ok());

    let received_msg = receiver_for_outgoing_peer.recv().unwrap();
    assert_eq!(received_msg, msg);
}

#[test]
fn test_send_to_non_existing_peer() {
    let outgoing_peer_id = PeerID(1);
    let (_, incoming_receiver) = channel();
    let network = InMemoryChannelNetwork::new(incoming_receiver, Vec::new());

    let result = network
        .send(outgoing_peer_id, Message::ClientTransaction(default_transaction()))
        .unwrap_err();
    assert!(match result {
        NetworkError::PeerNotFound { peer_id } if peer_id == outgoing_peer_id => true,
        _ => false,
    });
}

#[test]
fn test_send_to_closed_channel_returns_send_error() {
    let outgoing_peer_id = PeerID(1);
    let (sender_for_outgoing_peer, receiver_for_outgoing_peer) = channel();
    drop(receiver_for_outgoing_peer); // Close the channel immediately
    let (_, incoming_receiver) = channel();
    let network =
        InMemoryChannelNetwork::new(incoming_receiver, vec![(outgoing_peer_id, sender_for_outgoing_peer)]);

    let msg = Message::ClientTransaction(default_transaction());
    let result = network.send(outgoing_peer_id, msg.clone()).unwrap_err();
    assert!(match result {
        NetworkError::SendToPeerFailed { peer_id, cause: SendError(_) } if peer_id == outgoing_peer_id =>
            true,
        _ => false,
    });
}

#[test]
fn broadcast_reports_closed_channels_once_each() {
    let (to_two, at_two) = channel();
    let (to_three, at_three) = channel();
    let (to_three_again, at_three_again) = channel();
    drop(at_three_again);
    let (_, incoming) = channel();
    // The later channel of peer 3 replaces the earlier one; it is closed.
    let network = InMemoryChannelNetwork::new(
        incoming,
        vec![(PeerID(2), to_two), (PeerID(3), to_three), (PeerID(3), to_three_again)],
    );
    let msg = Message::PeerTransaction(default_transaction());
    let errors = network.broadcast_to_all(msg.clone());
    assert_eq!(errors.len(), 1);
    assert!(matches!(errors[0], NetworkError::SendToPeerFailed { peer_id: PeerID(3), .. }));
    assert_eq!(at_two.recv().unwrap(), msg);
    assert!(at_three.try_recv().is_err());

    let combined = combine_multiple_broadcasting_issues_to_result(&errors);
    assert_eq!(
        combined,
        Err("Can't send the message to peer with id=3 due to: sending on a closed channel".to_string())
    );
    assert_eq!(combine_multiple_broadcasting_issues_to_result(&Vec::new()), Ok(()));
}

#[test]
fn combined_issues_are_joined_with_commas() {
    let issues = vec![
        NetworkError::PeerNotFound { peer_id: PeerID(10) },
        NetworkError::PeerNotFound { peer_id: PeerID(4_294_967_295) },
    ];
    assert_eq!(
        combine_multiple_broadcasting_issues_to_result(&issues),
        Err("Peer with id=10 not found in network, Peer with id=4294967295 not found in network"
            .to_string())
    );
}

#[test]
fn receive_reports_closed_channel() {
    let (sender, incoming) = channel::<Message>();
    drop(sender);
    let network = InMemoryChannelNetwork::new(incoming, Vec::new());
    assert!(matches!(network.receive(), Err(NetworkError::ReceiveFailed { .. })));
}

#[test]
fn combined_issue_texts_name_the_cause() {
    let issues = vec![
        NetworkError::PeerNotFound { peer_id: PeerID(1) },
        NetworkError::ReceiveFailed { cause: RecvError },
    ];
    assert_eq!(
        combine_multiple_broadcasting_issues_to_result(&issues),
        Err("Peer with id=1 not found in network, Can't receive the message due to: receiving on a closed channel"
            .to_string())
    );
}

#[test]
fn closed_channel_errors_carry_the_channel_text() {
    let (to_one, at_one) = channel();
    drop(at_one);
    let (sender, incoming) = channel::<Message>();
    drop(sender);
    let network = InMemoryChannelNetwork::new(incoming, vec![(PeerID(1), to_one)]);
    let sent = network.send(PeerID(1), Message::ClientTransaction(default_transaction())).unwrap_err();
    assert_eq!(
        sent.message(),
        "Can't send the message to peer with id=1 due to: sending on a closed channel"
    );
    let received = network.receive().unwrap_err();
    assert_eq!(received.message(), "Can't receive the message due to: receiving on a closed channel");
}

#[test]
fn network_test_sending_message_to_existent_peer() {
    let (sender, receiver) = channel();
    let existing_peer_id = PeerID(1);
    let network = InMemoryChannelNetwork::new(channel().1, vec![(existing_peer_id, sender)]);
    let message = Message::ClientTransaction(default_transaction());
    network.send(existing_peer_id, message.clone()).unwrap();

    assert_eq!(receiver.recv().unwrap(), message);
}

#[test]
fn network_test_sending_message_to_nonexistent_peer_returns_error() {
    let network = InMemoryChannelNetwork::new(channel().1, Vec::new());

    let result = network.send(PeerID(999), Message::ClientTransaction(default_transaction()));
    assert!(matches!(result, Err(NetworkError::PeerNotFound { peer_id: PeerID(999) })));
}

#[test]
fn failed_send_hands_the_message_back() {
    let (to_one, at_one) = channel();
    drop(at_one);
    let network = InMemoryChannelNetwork::new(channel().1, vec![(PeerID(1), to_one)]);
    let msg = Message::PeerTransaction(default_transaction());
    match network.send(PeerID(1), msg.clone()) {
        Err(NetworkError::SendToPeerFailed { cause: SendError(back), .. }) => assert_eq!(back, msg),
        _ => panic!("expected a send failure"),
    }
    let errors = network.broadcast_to_all(msg.clone());
    assert_eq!(errors.len(), 1);
    match &errors[0] {
        NetworkError::SendToPeerFailed { cause: SendError(back), .. } => assert_eq!(back, &msg),
        _ => panic!("expected a send failure"),
    }
}

#[test]
fn broadcast_reports_only_the_closed_channel() {
    let (s1, r1) = channel();
    let (s2, r2) = channel();
    drop(r2);
    let network = InMemoryChannelNetwork::new(channel().1, vec![(PeerID(1), s1), (PeerID(2), s2)]);
    let msg = Message::ClientTransaction(default_transaction());
    let errors = network.broadcast_to_all(msg.clone());
    assert_eq!(errors.len(), 1);
    assert!(matches!(errors[0], NetworkError::SendToPeerFailed { peer_id: PeerID(2), .. }));
    assert_eq!(r1.try_recv(), Ok(msg));
}

#[test]
fn send_errors_keep_one_error_per_failed_send_in_order() {
    let msg = Message::PeerTransaction(default_transaction());
    let peers = vec![PeerID(7), PeerID(8), PeerID(9), PeerID(10)];
    let answers = vec![Err(SendError(msg.clone())), Ok(()), Err(SendError(msg.clone())), Ok(())];
    let errors = send_errors(&peers, answers);
    assert_eq!(errors.len(), 2);
    match (&errors[0], &errors[1]) {
        (
            NetworkError::SendToPeerFailed { peer_id: PeerID(7), cause: SendError(a) },
            NetworkError::SendToPeerFailed { peer_id: PeerID(9), cause: SendError(b) },
        ) => {
            assert_eq!(a, &msg);
            assert_eq!(b, &msg);
        }
        _ => panic!("expected failures for peers 7 and 9"),
    }
    assert!(send_errors(&peers, vec![Ok(()), Ok(()), Ok(()), Ok(())]).is_empty());
}

#[test]
fn channel_answers_map_to_results() {
    let msg = Message::ClientTransaction(default_transaction());
    assert!(sent(PeerID(4), Ok(())).is_ok());
    match sent(PeerID(4), Err(SendError(msg.clone()))) {
        Err(NetworkError::SendToPeerFailed { peer_id: PeerID(4), cause: SendError(back) }) => assert_eq!(back, msg),
        _ => panic!("expected a send failure"),
    }
    assert_eq!(received(Ok(msg.clone())).unwrap(), msg);
    assert!(matches!(received(Err(RecvError)), Err(NetworkError::ReceiveFailed { cause: RecvError })));
}
