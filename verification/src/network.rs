//! The messages that peers and clients exchange, and a network of peers
//! joined by in-process channels.
use vstd::prelude::*;
use vstd::string::StringExecFns;
use std::sync::mpsc::{Receiver, RecvError, SendError, Sender};
use crate::blockchain::{SignedBlock, SignedBlockModel, SignedTransaction, SignedTransactionModel};
use crate::peer::PeerID;

verus! {

/// A message on the network.
#[derive(Debug, PartialEq)]
pub enum Message {
    /// A transaction as a client submits it.
    ClientTransaction(SignedTransaction),
    /// A transaction as a peer passes it on.
    PeerTransaction(SignedTransaction),
    /// A block that a peer made.
    NewBlock(SignedBlock),
}

/// What a message says.
pub enum MessageModel {
    ClientTransaction(SignedTransactionModel),
    PeerTransaction(SignedTransactionModel),
    NewBlock(SignedBlockModel),
}

impl View for Message {
    type V = MessageModel;

    open spec fn view(&self) -> MessageModel {
        match self {
            Message::ClientTransaction(t) => MessageModel::ClientTransaction(t@),
            Message::PeerTransaction(t) => MessageModel::PeerTransaction(t@),
            Message::NewBlock(b) => MessageModel::NewBlock(b@),
        }
    }
}

impl Clone for Message {
    fn clone(&self) -> (copy: Message)
        ensures
            copy@ == self@,
    {
        match self {
            Message::ClientTransaction(t) => Message::ClientTransaction(t.clone()),
            Message::PeerTransaction(t) => Message::PeerTransaction(t.clone()),
            Message::NewBlock(b) => Message::NewBlock(b.clone()),
        }
    }
}

#[verifier::external_type_specification]
#[verifier::external_body]
#[verifier::reject_recursive_types(T)]
pub struct ExSender<T>(Sender<T>);

#[verifier::external_type_specification]
#[verifier::external_body]
#[verifier::reject_recursive_types(T)]
pub struct ExReceiver<T>(Receiver<T>);

/// std's `SendError` is a tuple struct whose one public field is the value
/// that could not be sent, so it is declared with that field visible.
#[verifier::external_type_specification]
#[verifier::reject_recursive_types(T)]
pub struct ExSendError<T>(SendError<T>);

#[verifier::external_type_specification]
#[verifier::external_body]
pub struct ExRecvError(RecvError);

/// Calls `Sender::send`. Whether it succeeds depends on whether the
/// receiving end still exists, so success is not promised. Where it fails,
/// the `SendError` holds the message that was handed in (std documents
/// that the error carries the data back). That
/// the message is queued on the channel is left unsaid: `send` takes the
/// sender by shared reference and leaves its value as it was, so no clause
/// over the sender or the result records the hand-off.
#[verifier::external_body]
fn channel_send(sender: &Sender<Message>, message: Message) -> (result: Result<(), SendError<Message>>)
    ensures
        result matches Err(e) ==> e.0 == message,
{
    sender.send(message)
}

/// Calls `Receiver::recv`, which waits for a message. What it gives depends
/// on the other ends, so nothing is promised of the result.
#[verifier::external_body]
fn channel_recv(receiver: &Receiver<Message>) -> Result<Message, RecvError> {
    receiver.recv()
}

/// Calls `ToString::to_string` on a `SendError`. Trusted: std's `Display`
/// for `SendError` writes "sending on a closed channel", whatever it holds.
#[verifier::external_body]
fn send_error_text(error: &SendError<Message>) -> (text: String)
    ensures
        text@ == "sending on a closed channel"@,
{
    error.to_string()
}

/// Calls `ToString::to_string` on a `RecvError`. Trusted: std's `Display`
/// for `RecvError` writes "receiving on a closed channel".
#[verifier::external_body]
fn recv_error_text(error: &RecvError) -> (text: String)
    ensures
        text@ == "receiving on a closed channel"@,
{
    error.to_string()
}

/// Why a message could not be sent or received.
#[derive(Debug)]
#[allow(inconsistent_fields)]
pub enum NetworkError {
    /// No channel leads to the peer.
    PeerNotFound { peer_id: PeerID },
    /// The channel to the peer is closed; the message comes back in `cause`.
    SendToPeerFailed { peer_id: PeerID, cause: SendError<Message> },
    /// The incoming channel is closed.
    ReceiveFailed { cause: RecvError },
}

/// The decimal digits of `n`.
pub open spec fn decimal(n: nat) -> Seq<char>
    decreases n,
{
    if n < 10 {
        seq![(48 + n) as char]
    } else {
        decimal(n / 10) + seq![(48 + n % 10) as char]
    }
}

/// The text of a decimal digit.
fn digit_text(d: u32) -> (text: &'static str)
    requires
        d < 10,
    ensures
        text@ == seq![(48 + d) as char],
{
    proof {
        reveal_strlit("0");
        reveal_strlit("1");
        reveal_strlit("2");
        reveal_strlit("3");
        reveal_strlit("4");
        reveal_strlit("5");
        reveal_strlit("6");
        reveal_strlit("7");
        reveal_strlit("8");
        reveal_strlit("9");
    }
    match d {
        0 => "0",
        1 => "1",
        2 => "2",
        3 => "3",
        4 => "4",
        5 => "5",
        6 => "6",
        7 => "7",
        8 => "8",
        _ => "9",
    }
}

/// Appends the decimal digits of `n`.
fn append_decimal(out: &mut String, n: u32)
    ensures
        final(out)@ == old(out)@ + decimal(n as nat),
    decreases n,
{
    if n >= 10 {
        append_decimal(out, n / 10);
    }
    out.append(digit_text(n % 10));
    assert(out@ =~= old(out)@ + decimal(n as nat));
}

impl NetworkError {
    /// The peer that the error names, if it names one.
    pub open spec fn peer(&self) -> Option<PeerID> {
        match self {
            NetworkError::PeerNotFound { peer_id } => Some(*peer_id),
            NetworkError::SendToPeerFailed { peer_id, .. } => Some(*peer_id),
            NetworkError::ReceiveFailed { .. } => None,
        }
    }

    /// The text of the error: a fixed sentence with the peer's identifier in
    /// decimal, which ends, where the error names a cause, with the cause's
    /// text.
    pub open spec fn text(&self) -> Seq<char> {
        match self {
            NetworkError::PeerNotFound { peer_id } => "Peer with id="@ + decimal(peer_id.0 as nat)
                + " not found in network"@,
            NetworkError::SendToPeerFailed { peer_id, .. } => "Can't send the message to peer with id="@
                + decimal(peer_id.0 as nat) + " due to: "@ + "sending on a closed channel"@,
            NetworkError::ReceiveFailed { .. } => "Can't receive the message due to: "@
                + "receiving on a closed channel"@,
        }
    }

    /// The text of the error.
    pub fn message(&self) -> (text: String)
        ensures
            text@ == self.text(),
    {
        match self {
            NetworkError::PeerNotFound { peer_id } => {
                let mut text = String::from_str("Peer with id=");
                append_decimal(&mut text, peer_id.0);
                text.append(" not found in network");
                text
            },
            NetworkError::SendToPeerFailed { peer_id, cause } => {
                let mut text = String::from_str("Can't send the message to peer with id=");
                append_decimal(&mut text, peer_id.0);
                text.append(" due to: ");
                let cause_text = send_error_text(cause);
                text.append(cause_text.as_str());
                text
            },
            NetworkError::ReceiveFailed { cause } => {
                let mut text = String::from_str("Can't receive the message due to: ");
                let cause_text = recv_error_text(cause);
                text.append(cause_text.as_str());
                text
            },
        }
    }
}

/// Whether an entry at or after `from` is for the peer.
pub open spec fn lists_peer(entries: Seq<(PeerID, Sender<Message>)>, from: int, p: PeerID) -> bool {
    exists|i: int| from <= i < entries.len() && #[trigger] entries[i].0 == p
}

/// Whether the errors name the peers at the given positions, which rise
/// strictly: the errors come in the order of the peers.
pub open spec fn errors_in_order(peers: Seq<PeerID>, errors: Seq<NetworkError>, positions: Seq<int>) -> bool {
    &&& positions.len() == errors.len()
    &&& forall|k: int|
        0 <= k < positions.len() ==> 0 <= #[trigger] positions[k] < peers.len() && errors[k].peer() == Some(
            peers[positions[k]],
        )
    &&& forall|k: int, l: int| 0 <= k < l < positions.len() ==> #[trigger] positions[k] < #[trigger] positions[l]
}

/// Whether `entry` is among the entries, with no later entry for its peer.
pub open spec fn is_last_entry(entries: Seq<(PeerID, Sender<Message>)>, entry: (PeerID, Sender<Message>)) -> bool {
    exists|i: int| 0 <= i < entries.len() && entries[i] == entry && last_listed(entries, i)
}

/// Whether no entry after position `i` is for the same peer.
pub open spec fn last_listed(entries: Seq<(PeerID, Sender<Message>)>, i: int) -> bool {
    forall|j: int| i < j < entries.len() ==> entries[j].0 != entries[i].0
}

/// A network of peers joined by channels: the channel on which this peer
/// receives, and the channel to each other peer.
pub struct InMemoryChannelNetwork {
    pub incoming: Receiver<Message>,
    outgoing: Vec<(PeerID, Sender<Message>)>,
}

impl InMemoryChannelNetwork {
    /// The peers that channels lead to.
    pub closed spec fn peers(&self) -> Seq<PeerID> {
        self.outgoing@.map_values(|entry: (PeerID, Sender<Message>)| entry.0)
    }

    /// The channels, each with the peer that it leads to.
    pub closed spec fn channels(&self) -> Seq<(PeerID, Sender<Message>)> {
        self.outgoing@
    }

    /// No peer has two channels.
    pub open spec fn well_formed(&self) -> bool {
        forall|i: int, j: int|
            0 <= i < self.peers().len() && 0 <= j < self.peers().len() && i != j ==> #[trigger] self.peers()[i]
                != #[trigger] self.peers()[j]
    }

    /// A network with a channel to each listed peer; where a peer is listed
    /// more than once, the last of its channels is kept.
    pub fn new(incoming: Receiver<Message>, outgoing: Vec<(PeerID, Sender<Message>)>) -> (network: Self)
        ensures
            network.well_formed(),
            forall|p: PeerID| #[trigger] network.peers().contains(p) <==> lists_peer(outgoing@, 0, p),
            network.peers() == network.channels().map_values(|entry: (PeerID, Sender<Message>)| entry.0),
            forall|k: int|
                0 <= k < network.channels().len() ==> is_last_entry(outgoing@, #[trigger] network.channels()[k]),
    {
        let ghost all = outgoing@;
        let mut listed = outgoing;
        let mut kept: Vec<(PeerID, Sender<Message>)> = Vec::new();
        while listed.len() > 0
            invariant
                all.len() >= listed@.len(),
                listed@ == all.subrange(0, listed@.len() as int),
                forall|i: int, j: int|
                    0 <= i < kept@.len() && 0 <= j < kept@.len() && i != j ==> #[trigger] kept@[i].0
                        != #[trigger] kept@[j].0,
                forall|p: PeerID| #[trigger] lists_peer(kept@, 0, p) <==> lists_peer(all, listed@.len() as int, p),
                forall|k: int|
                    0 <= k < kept@.len() ==> exists|i: int|
                        listed@.len() <= i < all.len() && all[i] == #[trigger] kept@[k] && last_listed(all, i),
            decreases listed.len(),
        {
            let ghost before = kept@;
            assert(forall|p: PeerID| #[trigger] lists_peer(before, 0, p) <==> lists_peer(all, listed@.len() as int, p));
            let entry = listed.pop().unwrap();
            let ghost at = listed@.len() as int;
            assert(entry == all[at]);
            let mut seen = false;
            let mut k: usize = 0;
            while k < kept.len()
                invariant
                    k <= kept@.len(),
                    kept@ == before,
                    seen <==> exists|i: int| 0 <= i < k && #[trigger] kept@[i].0 == entry.0,
                decreases kept.len() - k,
            {
                if kept[k].0 == entry.0 {
                    seen = true;
                }
                k = k + 1;
            }
            if !seen {
                kept.push(entry);
                proof {
                    assert(last_listed(all, at)) by {
                        assert forall|j: int| at < j < all.len() implies all[j].0 != all[at].0 by {
                            assert(lists_peer(all, at + 1, all[j].0));
                            assert(lists_peer(before, 0, all[j].0));
                        }
                    }
                    assert forall|k: int| 0 <= k < kept@.len() implies exists|i: int|
                        at <= i < all.len() && all[i] == #[trigger] kept@[k] && last_listed(all, i) by {
                        if k == kept@.len() - 1 {
                            assert(all[at] == kept@[k]);
                        } else {
                            assert(kept@[k] == before[k]);
                        }
                    }
                    assert forall|p: PeerID| #[trigger] lists_peer(kept@, 0, p) <==> lists_peer(all, at, p) by {
                        if lists_peer(all, at, p) {
                            let i = choose|i: int| at <= i < all.len() && #[trigger] all[i].0 == p;
                            if i == at {
                                assert(kept@[kept@.len() - 1].0 == p);
                            } else {
                                assert(lists_peer(all, at + 1, p));
                                assert(lists_peer(before, 0, p));
                                let j = choose|j: int| 0 <= j < before.len() && #[trigger] before[j].0 == p;
                                assert(kept@[j].0 == p);
                            }
                        }
                        if lists_peer(kept@, 0, p) {
                            let i = choose|i: int| 0 <= i < kept@.len() && #[trigger] kept@[i].0 == p;
                            if i < before.len() {
                                assert(before[i].0 == p);
                                assert(lists_peer(before, 0, p));
                            } else {
                                assert(all[at].0 == p);
                            }
                        }
                    }
                }
            } else {
                proof {
                    assert forall|p: PeerID| #[trigger] lists_peer(kept@, 0, p) <==> lists_peer(all, at, p) by {
                        if lists_peer(all, at, p) {
                            let i = choose|i: int| at <= i < all.len() && #[trigger] all[i].0 == p;
                            if i > at {
                                assert(lists_peer(all, at + 1, p));
                                assert(lists_peer(before, 0, p));
                            } else {
                                let j = choose|j: int| 0 <= j < before.len() && #[trigger] before[j].0 == entry.0;
                                assert(lists_peer(kept@, 0, p));
                            }
                        }
                        if lists_peer(kept@, 0, p) {
                            assert(lists_peer(before, 0, p));
                            assert(lists_peer(all, at + 1, p));
                            let i = choose|i: int| at + 1 <= i < all.len() && #[trigger] all[i].0 == p;
                        }
                    }
                }
            }
        }
        let network = InMemoryChannelNetwork { incoming: incoming, outgoing: kept };
        proof {
            assert(all == outgoing@);
            assert forall|k: int| 0 <= k < network.channels().len() implies is_last_entry(outgoing@, #[trigger] network.channels()[k]) by {
                assert(network.channels()[k] == kept@[k]);
                let i = choose|i: int| 0 <= i < all.len() && all[i] == #[trigger] kept@[k] && last_listed(all, i);
                assert(outgoing@[i] == network.channels()[k] && last_listed(outgoing@, i));
            }
            assert(network.peers() == kept@.map_values(|entry: (PeerID, Sender<Message>)| entry.0));
            assert forall|i: int, j: int|
                0 <= i < network.peers().len() && 0 <= j < network.peers().len() && i != j implies #[trigger] network.peers()[i]
                != #[trigger] network.peers()[j] by {
                assert(network.peers()[i] == kept@[i].0 && network.peers()[j] == kept@[j].0);
            }
            assert forall|p: PeerID| #[trigger] network.peers().contains(p) <==> lists_peer(all, 0, p) by {
                if network.peers().contains(p) {
                    let i = choose|i: int| 0 <= i < network.peers().len() && network.peers()[i] == p;
                    assert(kept@[i].0 == p);
                    assert(lists_peer(kept@, 0, p));
                }
                if lists_peer(kept@, 0, p) {
                    let i = choose|i: int| 0 <= i < kept@.len() && #[trigger] kept@[i].0 == p;
                    assert(network.peers()[i] == p);
                }
            }
        }
        network
    }

    /// The position of the peer's channel, if there is one.
    fn find_peer(&self, peer_id: PeerID) -> (index: Option<usize>)
        ensures
            match index {
                Some(i) => i < self.peers().len() && self.peers()[i as int] == peer_id,
                None => !self.peers().contains(peer_id),
            },
    {
        let mut i: usize = 0;
        while i < self.outgoing.len()
            invariant
                i <= self.peers().len(),
                forall|j: int| 0 <= j < i ==> self.peers()[j] != peer_id,
            decreases self.outgoing.len() - i,
        {
            if self.outgoing[i].0 == peer_id {
                return Some(i);
            }
            i = i + 1;
        }
        None
    }

    /// Sends the message on the peer's channel. Fails with `PeerNotFound`
    /// exactly where no channel leads to the peer; otherwise hands the
    /// message to `channel_send` on the peer's channel and returns what
    /// `sent` makes of the answer: success, or `SendToPeerFailed` naming the
    /// peer, with the message carried back, where the channel is closed.
    /// That the message is then queued is not stated (see `channel_send`).
    pub fn send(&self, peer_id: PeerID, msg: Message) -> (result: Result<(), NetworkError>)
        ensures
            !self.peers().contains(peer_id) ==> result == Err::<(), NetworkError>(
                NetworkError::PeerNotFound { peer_id },
            ),
            self.peers().contains(peer_id) ==> exists|answer: Result<(), SendError<Message>>|
                (answer matches Err(e) ==> e.0 == msg) && result == #[trigger] send_result(peer_id, answer),
            !self.peers().contains(peer_id) <==> (result is Err && result->Err_0 is PeerNotFound),
            result is Err ==> result->Err_0.peer() == Some(peer_id),
            result matches Err(NetworkError::SendToPeerFailed { cause, .. }) ==> cause.0 == msg,
    {
        match self.find_peer(peer_id) {
            None => Err(NetworkError::PeerNotFound { peer_id }),
            Some(i) => {
                let answer = channel_send(&self.outgoing[i].1, msg);
                let ghost seen = answer;
                let result = sent(peer_id, answer);
                assert(send_result(peer_id, seen) == result);
                result
            },
        }
    }

    /// Waits for a message on the incoming channel and returns what
    /// `received` makes of the answer: the message, or `ReceiveFailed`
    /// where the channel is closed.
    pub fn receive(&self) -> (result: Result<Message, NetworkError>)
        ensures
            exists|answer: Result<Message, RecvError>| result == #[trigger] receive_result(answer),
            result is Err ==> result->Err_0 is ReceiveFailed,
    {
        let answer = channel_recv(&self.incoming);
        let ghost seen = answer;
        let result = received(answer);
        assert(receive_result(seen) == result);
        result
    }

    /// Sends a copy of the message to every peer, one `channel_send` each,
    /// and returns what `send_errors` makes of the answers: one
    /// `SendToPeerFailed` for each peer whose channel is closed, in the order
    /// of the peers, each carrying its copy of the message back, and no other
    /// error. That each copy is then queued is not stated (see
    /// `channel_send`).
    pub fn broadcast_to_all(&self, msg: Message) -> (errors: Vec<NetworkError>)
        requires
            self.well_formed(),
        ensures
            exists|answers: Seq<Result<(), SendError<Message>>>|
                {
                    &&& answers.len() == self.peers().len()
                    &&& forall|k: int|
                        0 <= k < answers.len() ==> (#[trigger] answers[k] matches Err(e) ==> e.0@ == msg@)
                    &&& errors@ == #[trigger] failed_sends(self.peers(), answers)
                },
            errors@.len() <= self.peers().len(),
            forall|i: int| 0 <= i < errors@.len() ==> #[trigger] errors@[i] is SendToPeerFailed
                && self.peers().contains(errors@[i].peer()->0),
            forall|i: int, j: int|
                0 <= i < j < errors@.len() ==> #[trigger] errors@[i].peer() != #[trigger] errors@[j].peer(),
            exists|positions: Seq<int>| #[trigger] errors_in_order(self.peers(), errors@, positions),
            forall|i: int|
                0 <= i < errors@.len() ==> (#[trigger] errors@[i] matches NetworkError::SendToPeerFailed {
                    cause,
                    ..
                } ==> cause.0@ == msg@),
    {
        let mut peers: Vec<PeerID> = Vec::new();
        let mut answers: Vec<Result<(), SendError<Message>>> = Vec::new();
        let mut i: usize = 0;
        while i < self.outgoing.len()
            invariant
                i <= self.peers().len(),
                peers@ == self.peers().subrange(0, i as int),
                answers@.len() == i,
                forall|k: int| 0 <= k < i ==> (#[trigger] answers@[k] matches Err(e) ==> e.0@ == msg@),
            decreases self.outgoing.len() - i,
        {
            peers.push(self.outgoing[i].0);
            answers.push(channel_send(&self.outgoing[i].1, msg.clone()));
            i = i + 1;
            assert(peers@ =~= self.peers().subrange(0, i as int));
        }
        let ghost all = answers@;
        assert(peers@ =~= self.peers());
        let errors = send_errors(&peers, answers);
        proof {
            let positions = lemma_failed_sends_in_order(self.peers(), all, msg@);
            assert forall|a: int, b: int| 0 <= a < b < errors@.len() implies #[trigger] errors@[a].peer()
                != #[trigger] errors@[b].peer() by {
                assert(positions[a] < positions[b]);
            }
            assert forall|k: int| 0 <= k < errors@.len() implies #[trigger] errors@[k] is SendToPeerFailed
                && self.peers().contains(errors@[k].peer()->0) by {
                assert(self.peers()[positions[k]] == errors@[k].peer()->0);
            }
        }
        errors
    }
}

/// What a send to the peer comes to, given the channel's answer.
pub open spec fn send_result(peer_id: PeerID, answer: Result<(), SendError<Message>>) -> Result<(), NetworkError> {
    match answer {
        Ok(()) => Ok(()),
        Err(e) => Err(NetworkError::SendToPeerFailed { peer_id, cause: e }),
    }
}

/// What a send to the peer comes to, given the channel's answer: success,
/// or `SendToPeerFailed` naming the peer and holding the channel's error.
pub fn sent(peer_id: PeerID, answer: Result<(), SendError<Message>>) -> (result: Result<(), NetworkError>)
    ensures
        result == send_result(peer_id, answer),
{
    match answer {
        Ok(()) => Ok(()),
        Err(e) => Err(NetworkError::SendToPeerFailed { peer_id, cause: e }),
    }
}

/// What a receive comes to, given the channel's answer.
pub open spec fn receive_result(answer: Result<Message, RecvError>) -> Result<Message, NetworkError> {
    match answer {
        Ok(message) => Ok(message),
        Err(e) => Err(NetworkError::ReceiveFailed { cause: e }),
    }
}

/// What a receive comes to, given the channel's answer: the message, or
/// `ReceiveFailed` holding the channel's error.
pub fn received(answer: Result<Message, RecvError>) -> (result: Result<Message, NetworkError>)
    ensures
        result == receive_result(answer),
{
    match answer {
        Ok(message) => Ok(message),
        Err(e) => Err(NetworkError::ReceiveFailed { cause: e }),
    }
}

/// The errors of a broadcast, given the channel's answer for each peer: one
/// `SendToPeerFailed` for each failed send, naming its peer and holding the
/// channel's error, in the order of the peers; nothing for a send that
/// succeeded.
pub open spec fn failed_sends(peers: Seq<PeerID>, answers: Seq<Result<(), SendError<Message>>>) -> Seq<NetworkError>
    decreases answers.len(),
{
    if answers.len() == 0 || peers.len() == 0 {
        seq![]
    } else {
        failed_sends(peers.drop_last(), answers.drop_last()) + match answers.last() {
            Ok(()) => Seq::<NetworkError>::empty(),
            Err(e) => seq![NetworkError::SendToPeerFailed { peer_id: peers.last(), cause: e }],
        }
    }
}

/// The errors of a failed send each name the peer at a rising position and
/// carry back what the answers carry back.
proof fn lemma_failed_sends_in_order(
    peers: Seq<PeerID>,
    answers: Seq<Result<(), SendError<Message>>>,
    message: MessageModel,
) -> (positions: Seq<int>)
    requires
        peers.len() == answers.len(),
        forall|k: int| 0 <= k < answers.len() ==> (#[trigger] answers[k] matches Err(e) ==> e.0@ == message),
    ensures
        errors_in_order(peers, failed_sends(peers, answers), positions),
        failed_sends(peers, answers).len() <= peers.len(),
        forall|k: int|
            0 <= k < failed_sends(peers, answers).len() ==> (#[trigger] failed_sends(peers, answers)[k] is SendToPeerFailed
                && (failed_sends(peers, answers)[k] matches NetworkError::SendToPeerFailed { cause, .. } ==> cause.0@
                == message)),
    decreases answers.len(),
{
    if answers.len() == 0 {
        Seq::empty()
    } else {
        let shorter = peers.drop_last();
        let rest = answers.drop_last();
        assert forall|k: int| 0 <= k < rest.len() implies (#[trigger] rest[k] matches Err(e) ==> e.0@ == message) by {
            assert(rest[k] == answers[k]);
        }
        let before = lemma_failed_sends_in_order(shorter, rest, message);
        let prev = failed_sends(shorter, rest);
        let all = failed_sends(peers, answers);
        let n = answers.len() - 1;
        match answers.last() {
            Ok(()) => {
                assert(all =~= prev);
                assert forall|k: int| 0 <= k < before.len() implies all[k].peer() == Some(
                    peers[#[trigger] before[k]],
                ) by {
                    assert(shorter[before[k]] == peers[before[k]]);
                }
                before
            },
            Err(e) => {
                let positions = before.push(n);
                assert(all =~= prev.push(NetworkError::SendToPeerFailed { peer_id: peers.last(), cause: e }));
                assert(answers[n] == answers.last());
                assert forall|k: int| 0 <= k < positions.len() implies 0 <= #[trigger] positions[k] < peers.len()
                    && all[k].peer() == Some(peers[positions[k]]) by {
                    if k < before.len() {
                        assert(positions[k] == before[k]);
                        assert(shorter[before[k]] == peers[before[k]]);
                    }
                }
                assert forall|k: int, l: int| 0 <= k < l < positions.len() implies #[trigger] positions[k]
                    < #[trigger] positions[l] by {
                    if l < before.len() {
                        assert(positions[k] == before[k] && positions[l] == before[l]);
                    } else {
                        assert(positions[k] == before[k]);
                    }
                }
                positions
            },
        }
    }
}

/// The errors of a broadcast, given the channel's answer for each peer, in
/// the order of the peers (see `failed_sends`).
pub fn send_errors(peers: &Vec<PeerID>, answers: Vec<Result<(), SendError<Message>>>) -> (errors: Vec<NetworkError>)
    requires
        peers@.len() == answers@.len(),
    ensures
        errors@ == failed_sends(peers@, answers@),
{
    let ghost all = answers@;
    let mut rest = answers;
    let mut errors: Vec<NetworkError> = Vec::new();
    assert(peers@.subrange(0, all.len() as int) =~= peers@);
    assert(rest@ =~= all.subrange(0, all.len() as int));
    while rest.len() > 0
        invariant
            rest@.len() <= all.len(),
            all.len() == peers@.len(),
            rest@ == all.subrange(0, rest@.len() as int),
            failed_sends(peers@.subrange(0, rest@.len() as int), rest@) + errors@ == failed_sends(peers@, all),
        decreases rest.len(),
    {
        let ghost before = rest@;
        let ghost errors_before = errors@;
        let answer = rest.pop().unwrap();
        let k = rest.len();
        let ghost head = peers@.subrange(0, k as int + 1);
        proof {
            assert(head.drop_last() =~= peers@.subrange(0, k as int));
            assert(before.drop_last() =~= rest@);
            assert(rest@ =~= all.subrange(0, k as int));
            assert(head.last() == peers@[k as int]);
        }
        match answer {
            Ok(()) => {
                assert(failed_sends(head, before) =~= failed_sends(peers@.subrange(0, k as int), rest@));
            },
            Err(e) => {
                let failure = NetworkError::SendToPeerFailed { peer_id: peers[k], cause: e };
                errors.insert(0, failure);
                assert(failed_sends(head, before) =~= failed_sends(peers@.subrange(0, k as int), rest@) + seq![
                    failure,
                ]);
                assert(errors@ =~= seq![failure] + errors_before);
                assert(failed_sends(peers@.subrange(0, k as int), rest@) + errors@ =~= failed_sends(head, before)
                    + errors_before);
            },
        }
    }
    assert(failed_sends(peers@.subrange(0, 0), rest@) =~= Seq::<NetworkError>::empty());
    assert(Seq::<NetworkError>::empty() + errors@ =~= errors@);
    errors
}

/// The texts joined by ", ".
pub open spec fn joined(texts: Seq<Seq<char>>) -> Seq<char>
    decreases texts.len(),
{
    if texts.len() == 0 {
        seq![]
    } else if texts.len() == 1 {
        texts[0]
    } else {
        joined(texts.drop_last()) + ", "@ + texts.last()
    }
}

/// The texts of the errors.
pub open spec fn texts_of(issues: Seq<NetworkError>) -> Seq<Seq<char>> {
    issues.map_values(|e: NetworkError| e.text())
}

/// The texts of the errors joined by ", ", as an error; `Ok` where there
/// is no error.
pub fn combine_multiple_broadcasting_issues_to_result(issues: &Vec<NetworkError>) -> (result: Result<(), String>)
    ensures
        result is Ok <==> issues@.len() == 0,
        result matches Err(text) ==> text@ == joined(texts_of(issues@)),
{
    if issues.len() == 0 {
        return Ok(());
    }
    let ghost all = texts_of(issues@);
    let mut text = issues[0].message();
    let mut i: usize = 1;
    assert(all.subrange(0, 1) =~= seq![all[0]]);
    while i < issues.len()
        invariant
            1 <= i <= issues@.len(),
            all == texts_of(issues@),
            text@ == joined(all.subrange(0, i as int)),
        decreases issues.len() - i,
    {
        text.append(", ");
        let next = issues[i].message();
        text.append(next.as_str());
        proof {
            assert(all.subrange(0, i + 1).drop_last() =~= all.subrange(0, i as int));
            assert(text@ =~= joined(all.subrange(0, i + 1)));
        }
        i = i + 1;
    }
    assert(all.subrange(0, issues@.len() as int) =~= all);
    Err(text)
}

} // verus!
