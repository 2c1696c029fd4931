# ntkd

The deciding half of a Netsukuku node daemon, written in Verus: what a node decides about its
addresses, routes, links, identities, elections, merges and moves is stated by contract and proved.

- `src/` is the verified library.
  - `kernel/` holds hierarchical addressing in `10.0.0.0/8`, the reconciliation of kernel routes
    and what it does to a routing table, the configuration file and the checks before the start.
  - `node/` holds the link registry, what the coming and going of an arc leads to, inbound
    dispatch, the messages between nodes, the election of the member that enters another network,
    the verdicts on merges, the state machine of a move, and what a running daemon tells of itself.
  - `document.rs` is the boundary to TOML; `clock.rs` and `text.rs` are what the rest is written in.
- `tests/` runs the library on concrete values.
- `app/` is the program around it: files, sockets, signals and the `ip` tool.
