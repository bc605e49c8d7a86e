# herdr_mirror

Decision logic of a plugin that mirrors remote herdr sessions, verified with
Verus.

- `src/closes.rs` tells closes by the user from those of the mirror itself.
- `src/cwd_policy.rs` reads where a new terminal starts.
- `src/pick/` is the host picker: popup, menu, keys, and the hooks that replace a
  native create inside a mirror.
- `src/ssh_relay.rs` builds the command of a relay to a remote socket, and decides
  what a relay does as it runs.
- `src/listing.rs`, `src/json.rs` and `src/toml_doc.rs` read replies and
  configuration; the calls into serde_json and toml are confined to the latter
  two.
- `src/text.rs`, `src/bytes.rs` and `src/search.rs` hold what the others are
  stated over.

Each public function states what it gives in its `ensures`; properties that span
functions are the proof functions named `law_...`.

`app/` holds the terminal, process and socket work around the library, over
traits for the servers and the state that the daemon keeps.
