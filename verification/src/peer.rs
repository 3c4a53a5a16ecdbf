//! A peer: it pools verified transactions and, when the pool is full, makes
//! a signed block of them and folds it into its state.
use vstd::prelude::*;
use crate::blockchain::{
    PublicKey, SignedBlock, SignedTransaction, SignedTransactionModel, UnsignedBlock,
    spec_block_hash, transactions_view,
};
use crate::crypto::{
    CryptoError, lemma_verify_succeeds_only_on_verifying_signatures, signature_checks_out,
    spec_ecdsa_signature, spec_ecdsa_verifies, spec_hex_decode, spec_hex_encode, spec_public_key,
    spec_secret_key_valid, spec_verify_ecdsa,
};
use vstd::utf8::encode_utf8;
use crate::encoding::{
    MAX_SEQUENCE_LENGTH, encode_unsigned_block, encode_unsigned_transaction,
    signed_transaction_encodable, transaction_encodable, transactions_encodable,
};
use crate::network::Message;
use crate::state::{
    State, apply_transactions, block_transactions, merge, merge_in_range, transactions_in_range,
    unsigned_of,
};

verus! {

/// The identifier of a peer.
#[derive(Debug, Clone, Copy, PartialEq, Eq, Hash, Structural)]
pub struct PeerID(pub u32);

/// The transactions that wait to be put into a block, in arrival order, and
/// the number of them that makes a block.
pub struct MemPool {
    transactions_mem_pool: Vec<SignedTransaction>,
    max_size: usize,
}

impl MemPool {
    /// The waiting transactions.
    pub closed spec fn pending(&self) -> Seq<SignedTransactionModel> {
        transactions_view(self.transactions_mem_pool@)
    }

    /// The number of transactions that makes a block.
    pub closed spec fn capacity(&self) -> nat {
        self.max_size as nat
    }

    /// Every waiting transaction can be encoded.
    pub open spec fn well_formed(&self) -> bool {
        forall|i: int| 0 <= i < self.pending().len() ==> signed_transaction_encodable(#[trigger] self.pending()[i])
    }

    /// An empty pool that makes blocks of `max_size` transactions.
    pub fn new(max_size: usize) -> (pool: Self)
        ensures
            pool.pending() == Seq::<SignedTransactionModel>::empty(),
            pool.capacity() == max_size,
    {
        let pool = MemPool { transactions_mem_pool: Vec::new(), max_size };
        assert(pool.pending() =~= Seq::<SignedTransactionModel>::empty());
        pool
    }

    /// The number of transactions that makes a block.
    pub fn max_size(&self) -> (size: usize)
        ensures
            size == self.capacity(),
    {
        self.max_size
    }

    /// The number of waiting transactions.
    pub fn len(&self) -> (count: usize)
        ensures
            count == self.pending().len(),
    {
        self.transactions_mem_pool.len()
    }

    /// Adds a transaction at the end.
    pub fn add_new_transaction(&mut self, transaction: SignedTransaction)
        ensures
            final(self).pending() == old(self).pending().push(transaction@),
            final(self).capacity() == old(self).capacity(),
    {
        self.transactions_mem_pool.push(transaction);
        assert(self.pending() =~= old(self).pending().push(transaction@));
    }

    /// Whether exactly enough transactions wait to make a block.
    pub fn has_reached_max_size(&self) -> (reached: bool)
        ensures
            reached == (self.pending().len() == self.capacity()),
    {
        self.transactions_mem_pool.len() == self.max_size
    }

    /// Whether the transaction waits in the pool.
    pub fn contains(&self, transaction: &SignedTransaction) -> (found: bool)
        ensures
            found == self.pending().contains(transaction@),
    {
        let mut i: usize = 0;
        while i < self.transactions_mem_pool.len()
            invariant
                i <= self.pending().len(),
                forall|j: int| 0 <= j < i ==> self.pending()[j] != transaction@,
            decreases self.transactions_mem_pool.len() - i,
        {
            if self.transactions_mem_pool[i].same_as(transaction) {
                assert(self.pending()[i as int] == transaction@);
                return true;
            }
            i = i + 1;
        }
        false
    }

    /// Whether every waiting transaction can be encoded.
    pub fn is_well_formed(&self) -> (ok: bool)
        ensures
            ok == self.well_formed(),
    {
        let mut i: usize = 0;
        while i < self.transactions_mem_pool.len()
            invariant
                i <= self.pending().len(),
                forall|j: int| 0 <= j < i ==> signed_transaction_encodable(#[trigger] self.pending()[j]),
            decreases self.transactions_mem_pool.len() - i,
        {
            if !crate::encoding::is_signed_transaction_encodable(&self.transactions_mem_pool[i]) {
                assert(self.pending()[i as int] == self.transactions_mem_pool@[i as int]@);
                return false;
            }
            i = i + 1;
        }
        true
    }

    /// Copies of the waiting transactions followed by a copy of `transaction`.
    pub fn pending_with(&self, transaction: &SignedTransaction) -> (copies: Vec<SignedTransaction>)
        ensures
            transactions_view(copies@) == self.pending().push(transaction@),
    {
        let mut copies: Vec<SignedTransaction> = Vec::new();
        let mut i: usize = 0;
        while i < self.transactions_mem_pool.len()
            invariant
                i <= self.pending().len(),
                copies@.len() == i,
                transactions_view(copies@) == self.pending().subrange(0, i as int),
            decreases self.transactions_mem_pool.len() - i,
        {
            let copy = self.transactions_mem_pool[i].clone();
            let ghost before = copies@;
            copies.push(copy);
            proof {
                assert(copy@ == self.pending()[i as int]);
                assert forall|k: int| 0 <= k <= i implies #[trigger] transactions_view(copies@)[k] == self.pending().subrange(0, i + 1)[k] by {
                    if k < i {
                        assert(copies@[k] == before[k]);
                        assert(transactions_view(before)[k] == self.pending().subrange(0, i as int)[k]);
                    }
                }
                assert(transactions_view(copies@) =~= self.pending().subrange(0, i + 1));
            }
            i = i + 1;
        }
        let copy = transaction.clone();
        let ghost before = copies@;
        copies.push(copy);
        proof {
            assert(self.pending().subrange(0, self.pending().len() as int) =~= self.pending());
            assert forall|k: int| 0 <= k < copies@.len() implies #[trigger] transactions_view(copies@)[k] == self.pending().push(transaction@)[k] by {
                if k < before.len() {
                    assert(copies@[k] == before[k]);
                    assert(transactions_view(before)[k] == self.pending()[k]);
                }
            }
            assert(transactions_view(copies@) =~= self.pending().push(transaction@));
        }
        copies
    }

    /// Takes out the first `max_size` transactions, in order.
    pub fn drain_all(&mut self) -> (drained: Vec<SignedTransaction>)
        requires
            old(self).pending().len() >= old(self).capacity(),
        ensures
            transactions_view(drained@) == old(self).pending().take(old(self).capacity() as int),
            final(self).pending() == old(self).pending().skip(old(self).capacity() as int),
            final(self).capacity() == old(self).capacity(),
    {
        let mut drained = self.transactions_mem_pool.split_off(self.max_size);
        std::mem::swap(&mut drained, &mut self.transactions_mem_pool);
        assert(transactions_view(drained@) =~= old(self).pending().take(old(self).capacity() as int));
        assert(self.pending() =~= old(self).pending().skip(old(self).capacity() as int));
        drained
    }
}

/// Why a transaction was turned down.
#[derive(Debug, Clone, Copy, PartialEq, Eq, Structural)]
pub enum PeerError {
    /// The transaction holds a sequence too long for the wire format.
    Encoding,
    /// The signature of the transaction does not check out.
    Crypto(CryptoError),
}

/// What a peer does with a transaction that it has taken: the block that it
/// completed, if any, to store and publish, then the transaction to pass on.
pub struct TransactionOutcome {
    pub new_block: Option<SignedBlock>,
    pub transaction: SignedTransaction,
}

/// Whether the transaction's signature checks out over its encoding.
pub open spec fn transaction_verifies(t: SignedTransactionModel) -> bool {
    &&& transaction_encodable(t.transaction)
    &&& spec_verify_ecdsa(encode_unsigned_transaction(t.transaction), t.signature, t.public_key)
        == Ok::<bool, CryptoError>(true)
}

/// Whether the transaction can be encoded and its hex signature decodes to
/// a well-formed signature that verifies, under its valid public key, for
/// exactly the encoding of its unsigned part.
pub open spec fn signed_by_its_key(t: SignedTransactionModel) -> bool {
    &&& transaction_encodable(t.transaction)
    &&& signature_checks_out(encode_unsigned_transaction(t.transaction), t.signature, t.public_key)
}

/// Whether the message holds a transaction whose signature checks out.
pub open spec fn message_signed(message: Message) -> bool {
    match message {
        Message::ClientTransaction(t) => signed_by_its_key(t@),
        Message::PeerTransaction(t) => signed_by_its_key(t@),
        Message::NewBlock(_) => false,
    }
}

/// A peer takes a transaction into its pool, or into a block, only where
/// its signature checks out over its encoding; any other transaction leaves
/// the pool and the state as they were and is turned down with the reason
/// that checking gave.
pub proof fn lemma_only_signed_transactions_are_taken(
    peer: Peer,
    secret_key: Seq<u8>,
    state: State,
    t: SignedTransactionModel,
    after: Peer,
    state_after: State,
    outcome: Result<TransactionOutcome, PeerError>,
)
    requires
        peer.transaction_processed(secret_key, &state, t, &after, &state_after, outcome),
    ensures
        outcome is Ok ==> signed_by_its_key(t),
        !signed_by_its_key(t) ==> {
            &&& outcome is Err
            &&& after.mempool.pending() == peer.mempool.pending()
            &&& state_after == state
        },
        !transaction_encodable(t.transaction) ==> outcome == Err::<TransactionOutcome, PeerError>(PeerError::Encoding),
        forall|e: CryptoError|
            transaction_encodable(t.transaction) && #[trigger] spec_verify_ecdsa(
                encode_unsigned_transaction(t.transaction),
                t.signature,
                t.public_key,
            ) == Err::<bool, CryptoError>(e) ==> outcome == Err::<TransactionOutcome, PeerError>(
                PeerError::Crypto(e),
            ),
{
    lemma_verify_succeeds_only_on_verifying_signatures(
        encode_unsigned_transaction(t.transaction),
        t.signature,
        t.public_key,
    );
}

/// Whether the transaction's signature checks out over its encoding.
pub fn transaction_checks_out(t: &SignedTransaction) -> (ok: bool)
    ensures
        ok == transaction_verifies(t@),
{
    if !crate::encoding::is_transaction_encodable(&t.transaction) {
        return false;
    }
    let encoded = crate::encoding::unsigned_transaction_bytes(&t.transaction);
    match crate::crypto::verify_ecdsa(encoded.as_slice(), t.signature.as_str(), t.public_key.as_slice()) {
        Ok(true) => true,
        _ => false,
    }
}

/// A peer.
pub struct Peer {
    pub mempool: MemPool,
}

impl Peer {
    pub fn new(block_size: usize) -> (peer: Self)
        ensures
            peer.mempool.pending() == Seq::<SignedTransactionModel>::empty(),
            peer.mempool.capacity() == block_size,
    {
        Peer { mempool: MemPool::new(block_size) }
    }

    /// Whether taking the transaction completes a block.
    pub open spec fn completes_block(&self, t: SignedTransactionModel) -> bool {
        self.mempool.pending().len() + 1 == self.mempool.capacity()
    }

    /// The transactions of the block that taking the transaction completes.
    pub open spec fn next_block(&self, t: SignedTransactionModel) -> Seq<SignedTransactionModel> {
        self.mempool.pending().push(t)
    }

    /// Whether the state can fold in the block that taking the transaction
    /// would complete: it can where no block is completed.
    pub open spec fn block_fits(&self, state: &State, t: SignedTransactionModel) -> bool {
        transaction_verifies(t) && self.completes_block(t) ==> {
            let ts = unsigned_of(self.next_block(t));
            &&& transactions_in_range(Map::empty(), ts)
            &&& merge_in_range(state.balances(), apply_transactions(Map::empty(), ts))
        }
    }

    /// What `process_transaction` needs of the peer, the state and the
    /// transaction: a valid secret key, a pool of encodable transactions, a
    /// block no longer than the wire format carries where the transaction
    /// completes one, a state without
    /// duplicate accounts, an encodable transaction, and a block that the
    /// state can fold in.
    pub open spec fn can_process(&self, secret_key: Seq<u8>, state: &State, t: SignedTransactionModel) -> bool {
        &&& spec_secret_key_valid(secret_key)
        &&& self.mempool.well_formed()
        &&& self.completes_block(t) ==> self.mempool.capacity() <= MAX_SEQUENCE_LENGTH
        &&& state.well_formed()
        &&& signed_transaction_encodable(t)
        &&& self.block_fits(state, t)
    }

    /// What taking a transaction does. One whose signature does not check
    /// out changes nothing and is turned down with the reason. One that
    /// checks out joins the pool; where it fills the pool, the pool is
    /// emptied into a new signed block, whose balances the state takes in.
    pub open spec fn transaction_processed(
        &self,
        secret_key: Seq<u8>,
        state: &State,
        t: SignedTransactionModel,
        after: &Peer,
        state_after: &State,
        outcome: Result<TransactionOutcome, PeerError>,
    ) -> bool {
        &&& after.mempool.well_formed()
        &&& after.mempool.capacity() == self.mempool.capacity()
        &&& state_after.well_formed()
        &&& !transaction_verifies(t) ==> {
            &&& after.mempool.pending() == self.mempool.pending()
            &&& *state_after == *state
            &&& outcome == if !transaction_encodable(t.transaction) {
                Err::<TransactionOutcome, PeerError>(PeerError::Encoding)
            } else {
                Err::<TransactionOutcome, PeerError>(
                    PeerError::Crypto(
                        spec_verify_ecdsa(
                            encode_unsigned_transaction(t.transaction),
                            t.signature,
                            t.public_key,
                        )->Err_0,
                    ),
                )
            }
        }
        &&& transaction_verifies(t) && !self.completes_block(t) ==> {
            &&& after.mempool.pending() == self.mempool.pending().push(t)
            &&& *state_after == *state
            &&& outcome is Ok
            &&& outcome->Ok_0.new_block is None
            &&& outcome->Ok_0.transaction@ == t
        }
        &&& transaction_verifies(t) && self.completes_block(t) ==> {
            &&& after.mempool.pending() == Seq::<SignedTransactionModel>::empty()
            &&& state_after.hash_of_last_block == state.hash_of_last_block
            &&& outcome is Ok
            &&& outcome->Ok_0.transaction@ == t
            &&& outcome->Ok_0.new_block is Some
            &&& self.made_block(secret_key, state, t, outcome->Ok_0.new_block->Some_0)
            &&& state_after.balances() == merge(
                state.balances(),
                apply_transactions(Map::empty(), unsigned_of(self.next_block(t))),
            )
        }
    }

    /// Whether `process_transaction` can take the transaction.
    pub fn can_process_transaction(&self, secret_key: &[u8], state: &State, t: &SignedTransaction) -> (ok: bool)
        ensures
            ok == self.can_process(secret_key@, state, t@),
    {
        if !crate::crypto::secret_key_is_valid(secret_key) || !self.mempool.is_well_formed()
            || !state.is_well_formed() || !crate::encoding::is_signed_transaction_encodable(t) {
            return false;
        }
        if self.mempool.len() as u128 + 1 != self.mempool.max_size() as u128 {
            return true;
        }
        if self.mempool.max_size() > MAX_SEQUENCE_LENGTH {
            return false;
        }
        if !transaction_checks_out(t) {
            return true;
        }
        let next = self.mempool.pending_with(t);
        state.can_fold(&next)
    }

    /// Whether `process_message_from_topic` can take the message: one that
    /// would be taken as a transaction must meet `can_process`.
    pub open spec fn can_process_message(&self, secret_key: Seq<u8>, state: &State, message: Message) -> bool {
        match message {
            Message::ClientTransaction(t) => self.can_process(secret_key, state, t@),
            Message::PeerTransaction(t) => self.mempool.pending().contains(t@) || self.can_process(
                secret_key,
                state,
                t@,
            ),
            Message::NewBlock(_) => true,
        }
    }

    /// What a message does: a client's transaction is taken; a peer's
    /// transaction is taken unless the pool holds it already; a block
    /// changes nothing.
    pub open spec fn message_processed(
        &self,
        secret_key: Seq<u8>,
        state: &State,
        message: Message,
        after: &Peer,
        state_after: &State,
        outcome: Option<Result<TransactionOutcome, PeerError>>,
    ) -> bool {
        match message {
            Message::ClientTransaction(t) => outcome is Some && self.transaction_processed(
                secret_key,
                state,
                t@,
                after,
                state_after,
                outcome->Some_0,
            ),
            Message::PeerTransaction(t) => if self.mempool.pending().contains(t@) {
                outcome is None && *after == *self && *state_after == *state
            } else {
                outcome is Some && self.transaction_processed(
                    secret_key,
                    state,
                    t@,
                    after,
                    state_after,
                    outcome->Some_0,
                )
            },
            Message::NewBlock(_) => outcome is None && *after == *self && *state_after == *state,
        }
    }

    /// Whether `process_message_from_topic` can take the message.
    pub fn can_process_message_from_topic(&self, secret_key: &[u8], state: &State, message: &Message) -> (ok: bool)
        ensures
            ok == self.can_process_message(secret_key@, state, *message),
    {
        match message {
            Message::ClientTransaction(t) => self.can_process_transaction(secret_key, state, t),
            Message::PeerTransaction(t) => self.mempool.contains(t) || self.can_process_transaction(
                secret_key,
                state,
                t,
            ),
            Message::NewBlock(_) => true,
        }
    }

    /// Takes the message where `process_message_from_topic` can, and
    /// returns what that gives; returns `None`, changing nothing, where it
    /// cannot (a block that would put a balance out of range, a secret key
    /// that does not sign, a pool or state that is not well formed).
    pub fn handle_message(
        &mut self,
        secret_key: &[u8],
        state: &mut State,
        message: Message,
    ) -> (outcome: Option<Option<Result<TransactionOutcome, PeerError>>>)
        ensures
            outcome is None <==> !old(self).can_process_message(secret_key@, old(state), message),
            outcome is None ==> *final(self) == *old(self) && *final(state) == *old(state),
            outcome matches Some(o) ==> old(self).message_processed(
                secret_key@,
                old(state),
                message,
                final(self),
                final(state),
                o,
            ),
            outcome matches Some(Some(Ok(_))) ==> message_signed(message),
            outcome matches Some(Some(Err(_))) ==> final(self).mempool.pending() == old(self).mempool.pending()
                && *final(state) == *old(state),
            !message_signed(message) ==> final(self).mempool.pending() == old(self).mempool.pending()
                && *final(state) == *old(state),
    {
        if !self.can_process_message_from_topic(secret_key, state, &message) {
            return None;
        }
        let ghost before = *self;
        let ghost state_before = *state;
        let ghost m = message;
        let outcome = self.process_message_from_topic(secret_key, state, message);
        proof {
            match m {
                Message::ClientTransaction(t) => {
                    lemma_only_signed_transactions_are_taken(
                        before, secret_key@, state_before, t@, *self, *state, outcome->Some_0);
                },
                Message::PeerTransaction(t) => {
                    if outcome is Some {
                        lemma_only_signed_transactions_are_taken(
                            before, secret_key@, state_before, t@, *self, *state, outcome->Some_0);
                    }
                },
                Message::NewBlock(_) => {},
            }
        }
        Some(outcome)
    }

    /// Checks the transaction's signature over its encoding. Where it checks
    /// out, adds the transaction to the pool and, where that fills the pool,
    /// makes a block of the pooled transactions, signs it, and folds it into
    /// the state. Returns the block, if one was made, and the transaction, to
    /// be stored and passed on. A pool below its size stays below it: a
    /// pool that fills is emptied into the block within the same call.
    pub fn process_transaction(
        &mut self,
        secret_key: &[u8],
        transaction: SignedTransaction,
        state: &mut State,
    ) -> (outcome: Result<TransactionOutcome, PeerError>)
        requires
            old(self).can_process(secret_key@, old(state), transaction@),
        ensures
            old(self).transaction_processed(secret_key@, old(state), transaction@, final(self), final(state), outcome),
            old(self).mempool.pending().len() < old(self).mempool.capacity() ==> final(self).mempool.pending().len()
                < final(self).mempool.capacity(),
            outcome is Ok ==> signed_by_its_key(transaction@),
            outcome is Ok ==> exists|signature: Seq<u8>|
                spec_hex_decode(encode_utf8(transaction@.signature)) == Some(signature) && #[trigger] spec_ecdsa_verifies(
                    transaction@.public_key,
                    encode_unsigned_transaction(transaction@.transaction),
                    signature,
                ),
            !signed_by_its_key(transaction@) ==> {
                &&& outcome is Err
                &&& final(self).mempool.pending() == old(self).mempool.pending()
                &&& *final(state) == *old(state)
            },
    {
        proof {
            lemma_verify_succeeds_only_on_verifying_signatures(
                encode_unsigned_transaction(transaction@.transaction),
                transaction@.signature,
                transaction@.public_key,
            );
        }
        if !crate::encoding::is_transaction_encodable(&transaction.transaction) {
            return Err(PeerError::Encoding);
        }
        let encoded = crate::encoding::unsigned_transaction_bytes(&transaction.transaction);
        match crate::crypto::verify_ecdsa(
            encoded.as_slice(),
            transaction.signature.as_str(),
            transaction.public_key.as_slice(),
        ) {
            Ok(true) => {},
            Ok(false) => {
                return Err(PeerError::Crypto(CryptoError::VerificationFailed));
            },
            Err(e) => {
                return Err(PeerError::Crypto(e));
            },
        }
        let ghost before = *self;
        self.mempool.add_new_transaction(transaction.clone());
        proof {
            assert forall|i: int| 0 <= i < self.mempool.pending().len() implies signed_transaction_encodable(
                #[trigger] self.mempool.pending()[i],
            ) by {
                if i < before.mempool.pending().len() {
                    assert(self.mempool.pending()[i] == before.mempool.pending()[i]);
                }
            }
        }
        if self.mempool.has_reached_max_size() {
            let block = self.process_new_own_block(secret_key, state);
            Ok(TransactionOutcome { new_block: Some(block), transaction })
        } else {
            Ok(TransactionOutcome { new_block: None, transaction })
        }
    }

    /// Whether `b` is the block that taking the transaction completes: the
    /// pooled transactions and the new one, linked to the state's last block
    /// hash, hashed, and signed over its encoding with the secret key, whose
    /// public key it carries.
    pub open spec fn made_block(&self, secret_key: Seq<u8>, state: &State, t: SignedTransactionModel, b: SignedBlock) -> bool {
        &&& b.block@.transactions == self.next_block(t)
        &&& b.block.previous_block_hash == state.hash_of_last_block
        &&& b.block.hash@ == spec_block_hash(self.next_block(t), state.hash_of_last_block@)
        &&& b.signature@ == spec_hex_encode(spec_ecdsa_signature(secret_key, encode_unsigned_block(b.block@)))
        &&& b.public_key@ == spec_public_key(secret_key)
        &&& spec_verify_ecdsa(encode_unsigned_block(b.block@), b.signature@, b.public_key@) == Ok::<bool, CryptoError>(true)
    }

    /// Makes a block of the full pool, signs it, and folds it into the state.
    fn process_new_own_block(&mut self, secret_key: &[u8], state: &mut State) -> (block: SignedBlock)
        requires
            spec_secret_key_valid(secret_key@),
            old(self).mempool.well_formed(),
            old(self).mempool.capacity() <= MAX_SEQUENCE_LENGTH,
            old(self).mempool.pending().len() == old(self).mempool.capacity(),
            old(state).well_formed(),
            transactions_in_range(Map::empty(), unsigned_of(old(self).mempool.pending())),
            merge_in_range(
                old(state).balances(),
                apply_transactions(Map::empty(), unsigned_of(old(self).mempool.pending())),
            ),
        ensures
            final(self).mempool.pending() == Seq::<SignedTransactionModel>::empty(),
            final(self).mempool.capacity() == old(self).mempool.capacity(),
            final(state).well_formed(),
            final(state).hash_of_last_block == old(state).hash_of_last_block,
            final(state).balances() == merge(
                old(state).balances(),
                apply_transactions(Map::empty(), unsigned_of(old(self).mempool.pending())),
            ),
            block.block@.transactions == old(self).mempool.pending(),
            block.block.previous_block_hash == old(state).hash_of_last_block,
            block.block.hash@ == spec_block_hash(old(self).mempool.pending(), old(state).hash_of_last_block@),
            block.signature@ == spec_hex_encode(spec_ecdsa_signature(secret_key@, encode_unsigned_block(block.block@))),
            block.public_key@ == spec_public_key(secret_key@),
            spec_verify_ecdsa(encode_unsigned_block(block.block@), block.signature@, block.public_key@) == Ok::<bool, CryptoError>(true),
    {
        let block = self.create_and_sign_new_block(secret_key, state);
        assert(block_transactions(block@) == unsigned_of(old(self).mempool.pending()));
        state.recalculate_state(&block);
        block
    }

    /// Drains the pool into a block linked to the state's last block, and
    /// signs the block.
    fn create_and_sign_new_block(&mut self, secret_key: &[u8], state: &State) -> (block: SignedBlock)
        requires
            spec_secret_key_valid(secret_key@),
            old(self).mempool.well_formed(),
            old(self).mempool.capacity() <= MAX_SEQUENCE_LENGTH,
            old(self).mempool.pending().len() >= old(self).mempool.capacity(),
        ensures
            final(self).mempool.pending() == old(self).mempool.pending().skip(old(self).mempool.capacity() as int),
            final(self).mempool.capacity() == old(self).mempool.capacity(),
            block.block@.transactions == old(self).mempool.pending().take(old(self).mempool.capacity() as int),
            block.block.previous_block_hash == state.hash_of_last_block,
            block.block.hash@ == spec_block_hash(
                old(self).mempool.pending().take(old(self).mempool.capacity() as int),
                state.hash_of_last_block@,
            ),
            block.signature@ == spec_hex_encode(spec_ecdsa_signature(secret_key@, encode_unsigned_block(block.block@))),
            block.public_key@ == spec_public_key(secret_key@),
            spec_verify_ecdsa(encode_unsigned_block(block.block@), block.signature@, block.public_key@) == Ok::<bool, CryptoError>(true),
    {
        let transactions = self.mempool.drain_all();
        proof {
            let ts = transactions_view(transactions@);
            assert forall|i: int| 0 <= i < ts.len() implies signed_transaction_encodable(#[trigger] ts[i]) by {
                assert(ts[i] == old(self).mempool.pending()[i]);
            }
        }
        let new_unsigned_block = UnsignedBlock::new(transactions, state.hash_of_last_block);
        let encoded = crate::encoding::unsigned_block_bytes(&new_unsigned_block);
        let signature = match crate::crypto::sign_ecdsa(encoded.as_slice(), secret_key) {
            Ok(signature) => signature,
            Err(_) => {
                // A valid secret key always signs.
                proof {
                    assert(false);
                }
                String::new()
            },
        };
        let public_key: PublicKey = crate::crypto::public_key_of(secret_key);
        proof {
            crate::crypto::lemma_made_signature_verifies(encoded@, secret_key@);
        }
        SignedBlock { block: new_unsigned_block, signature, public_key }
    }

    /// What a peer does with a message of the topic: it takes a client's
    /// transaction, and a peer's transaction unless it already pools it; it
    /// does nothing with a block. Returns what taking a transaction gave, or
    /// `None` where nothing was taken.
    pub fn process_message_from_topic(
        &mut self,
        secret_key: &[u8],
        state: &mut State,
        message: Message,
    ) -> (outcome: Option<Result<TransactionOutcome, PeerError>>)
        requires
            old(self).can_process_message(secret_key@, old(state), message),
        ensures
            old(self).message_processed(secret_key@, old(state), message, final(self), final(state), outcome),
    {
        match message {
            Message::ClientTransaction(transaction) => {
                Some(self.process_transaction(secret_key, transaction, state))
            },
            Message::PeerTransaction(transaction) => {
                if !self.mempool.contains(&transaction) {
                    Some(self.process_transaction(secret_key, transaction, state))
                } else {
                    None
                }
            },
            Message::NewBlock(_) => None,
        }
    }
}

} // verus!
