# iuna

A ledger and node for an experimental devnet that combines delayed finalization, a burn lottery and
proof-of-work issuance. The rules of the network are written in Verus and proved.

- `src/` is the library. Every function states in its contract what it returns or changes, over
  models of the data (`..View` types, `deep_view()`); the laws of the ledger are public proof
  functions.
  - values: `text`, `hex`, `json`, `document`, `sorted`, `model`, `error`, `crypto`, `wallet`
  - money: `transaction`, `utxo`, `rewards`, `sealing`, `blinded`, `locks`, `held`, `supply`
  - blocks: `block`, `blocks`, `vdf`, `tickets`, `lottery`, `committee`, `draw`, `bundling`, `proposals`,
    `selection`, `acceptance`
  - chains: `genesis`, `ledger`, `mempool`, `builder`, `replay`, `forks`, `history`, `validate`
  - nodes: `node`, `relay`, `gossip`, `payments`, `automatic`, `conduct`, `network`, `peers`,
    `status`, `stratum`, `service`, `cli`
- `app/` is the program around it: command line, files, gossip over TCP and the loops of a node.
- `tests/` runs the library: scenarios of ledgers and nodes, formulas with their values, and the laws
  on concrete chains.

A sealed transaction names the outputs that it spends, and bears the signature of their owner on its
envelope. It may wait for outputs that are still to come, such as the change of another. A block may
include it once they are unspent; they are then held for it, and once it is opened they pay for what it
says. If it expires unopened they are unspent again.

What the library takes from other crates stands in `crypto` (hashing, signatures, sealing,
randomness, the clock) and `json` (reading and writing documents).
