# rpi

The core of a terminal coding agent, written in Rust and verified with Verus.

- `src/` is the library: messages and models, token estimates, compaction, tool
  argument validation, repair of partial JSON, sessions and their files, the
  agent loop as a state machine, the wire formats of the OpenAI and Anthropic
  services, server-sent events, reconnection, configuration and the texts that
  the command line shows. Every function states its behaviour in its contract.
- `src/loop_laws.rs`, `src/normalization_laws.rs` and `src/session_laws.rs` hold
  proofs that span several functions; shorter ones stand beside the functions they
  are about.
- `app/` is the program around it: arguments, files, the network and the
  terminal.
- `tests/` runs the library on concrete values.

What the library takes from other crates and from the parts of the standard
library that have no specification goes through small functions marked
`external_body`, each with a comment that says what is believed of it.
