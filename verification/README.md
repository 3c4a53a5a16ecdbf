# linchain

A small ledger run by peers. Clients submit signed top-up and transfer
transactions; a peer checks each signature, pools the transactions, and when
the pool is full packs them into a block, signs it, stores it, publishes it,
and folds its balances into its state. Each block a peer makes carries, as
its previous hash, the hash of the last block that the peer's state was
built from at start-up: folding in a block changes the balances and leaves
that hash as it is.

- `src/` is the library, verified with Verus:
  - `blockchain.rs`: transactions and blocks, the hash of a block;
  - `encoding.rs`: the wire format in which transactions and blocks are
    signed and hashed;
  - `crypto.rs`: ECDSA over secp256k1, hex, SHA-256;
  - `state.rs`: the balances that a chain of blocks leaves, and folding in a
    new block;
  - `peer.rs`: the transaction pool and what a peer does with each message;
  - `network.rs`: the messages, and a network of peers joined by
    in-process channels (the node itself talks over libp2p, in `app/`);
  - `client.rs`: the top-up that a client signs;
  - `storage.rs`: the name of the file that holds the blocks.
- `app/` is the program around it: the libp2p node and client, the serde
  forms of the data, and the blocks file.
- `tests/` exercises the library.
