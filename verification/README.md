# ethlambda

The logic of a lean consensus client as a library whose functions carry contracts that
Verus proves, and a small node around it.

## The library (`src/`)

| Module | What it holds |
| --- | --- |
| `primitives`, `text` | byte strings, integers as bytes, 32-byte roots, decimal text |
| `encoding` | SSZ: containers, lists and bit lists; decoding undoes encoding |
| `hash_root` | SSZ hash tree roots |
| `checkpoint`, `attestation`, `block`, `state` | the consensus types with their encodings and roots |
| `sizes` | how long encodings are, and so what can be encoded |
| `genesis`, `pubkey`, `validator_config`, `startup` | what a node is configured by and starts from |
| `checkpoint_sync` | which downloaded states a node accepts |
| `ordered_map` | maps and sets in the order of their keys' bytes |
| `storage` | tables, keys, the in-memory backend and the chain store with its pruning rules |
| `blockchain` | ticks, signing, and the sequencing of blocks whose parents are missing |
| `net` | requests, responses, gossip messages, and the fetching of missing blocks |
| `fixtures` | test vectors and the values they stand for |
| `bindings` | calls into other crates, each with the contract that the library relies on |

Every function states what it returns or changes over mathematical values: a store is a
map from tables to maps of byte strings, a block fetcher is a set of peers with what is
pending, an encoded value is a sequence of bytes. The properties that span functions are
public proof functions next to the functions they speak of, for example
`encoding::read_gives_back_written`, `storage::model::signed_block_reads_back`,
`storage::model::pruning_keeps_window_and_protected`, `net::codec::blocks_read_back` and
`blockchain::server::waiting_block_comes_back`.

What is taken on trust is in `bindings`: the lists and bit lists of `ssz_types`, the Merkle
roots of `tree_hash`, `hex`, `snap`, the random choice of `rand`, and the sort of the
standard library.

## The node (`app/`)

`app/` reads files, downloads a checkpoint state, frames messages on streams and runs the
tasks that tick the chain and talk to peers. The rules of fork choice, the connections to
peers and the secret keys are behind traits there; `observer` is the node that only
observes.

## Tests (`tests/`)

Ordinary tests against the compiled library, with the other crates linked.
