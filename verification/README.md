# kwaainet

The KwaaiNet node: configuration, block placement on the shared model
chain, model-file selection, and the small wire formats a node reads and
writes on the Hivemind DHT.  The library in `src/` is written in Verus and
every function in it carries a contract that Verus proves; `app/` is the
command-line program around it (process control, files, network, and the
JSON forms of credentials).

## Layout

- `src/config.rs`, `src/cli.rs`: the node's settings, `config set`, start
  flags and the derived DHT prefix.
- `src/rebalancer.rs`, `src/shard.rs`: where a node places its blocks, when
  it moves, and the order in which a chain of servers is tried.
- `src/hf.rs`: which model files and tensors a block range needs.
- `src/msgpack.rs`, `src/records.rs`, `src/announce.rs`: DHT records, read
  and written as MessagePack through `rmpv`; a node's announcement reads
  back as what it announced.
- `src/dht.rs`, `src/varint.rs`, `src/p2p.rs`, `src/node.rs`,
  `src/crawler.rs`: DHT keys, frames, the p2p daemon's command line, the
  node's announcement settings and the map crawler's key set.
- `src/did.rs`, `src/credential.rs`, `src/summit.rs`: identifiers (peer
  ids parsed through `libp2p`), verifiable credentials with the time of
  issue passed in, and trust tiers.
- `src/updater.rs`, `src/setup.rs`, `src/service.rs`, `src/daemon.rs`,
  `src/display.rs`, `src/api.rs`: version checks, release archives, service
  files, pid and lock handling, terminal output and the chat API's prompt
  building.
- `src/parse.rs`, `src/fmt.rs`, `src/text.rs`: verified text helpers.

Trusted items (wrappers around `sha1`, `bs58`, `libp2p`, `rmp-serde`,
`rmpv`, `serde_json`, `dirs`, `nix` and `String::push`) are marked
`#[verifier::external_body]`; each states in its doc comment what its
contract claims of the crate it calls.

## Checking

`tests/` holds the unit tests; the proofs are checked by running Verus on
`src/lib.rs`.
