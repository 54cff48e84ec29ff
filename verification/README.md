# aband

The logic of a parachain PoS template, verified with Verus: the server,
group and collators pallets as state machines over plain values, and the
plain parts of the test networks' genesis.

- `src/server.rs`, `src/group.rs`, `src/collators.rs`: each pallet's storage,
  a view of it as mathematical maps and sequences, a rule for each call over
  that view, and the executable call, proved to follow its rule. A refused
  call returns the rule's error and changes nothing, but for a server's list
  of groups, which a refused addition or removal of a group deletes.
- `src/*_laws.rs`: what the calls keep and how they combine, over single
  calls and over any sequence of calls.
- `src/account.rs`, `src/group_id.rs`, `src/server_id.rs`: accounts derived
  from a kind tag and an index through SCALE encoding.
- `src/chain_spec.rs`: development keys, the test networks' genesis and specs.
- `app/`: the runtime around the pallets, which does the currency work that
  group calls depend on, and the serde form of the chain spec extensions.
