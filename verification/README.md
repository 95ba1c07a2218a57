# rpsee

A caching load balancer for Ethereum JSON-RPC, over HTTP and WebSockets.

- `src/` is the library. It holds the rules: which requests are valid, what is
  cached and under which key, how replies get their ids back, how often a call
  is retried, which nodes are in rotation, who shares a subscription and where
  it moves when a node drops, and what the admin interface does. Every function
  states its behaviour in a contract that Verus proves. Calls into other crates
  (JSON text, URLs, hashes, tokens) stand behind small functions whose contracts
  are believed.
- `app/` is the program around it: sockets, timers, locks and channels. Where a
  rule alternates with waiting, the library says what to do next and the program
  hands back what happened.
- `tests/` runs the library.

Run it with `rpsee --config <file>`, where the file is a JSON object. Its keys
are the fields of `ConfigFile` in `app/main.rs`, each with a default but for the
addresses in `nodes`. The cache is held in memory.
