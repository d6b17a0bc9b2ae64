# rust_pure_demo

A tamper-evident ledger: every entry is signed with an Ed25519 key and carries
the SHA-256 hash of its fields and of the previous entry's hash, so that a
changed, removed or reordered entry is found when the ledger is loaded.

- `src/` is the library, verified with Verus: the byte and text formats
  (`encoding`), the calls into `base64`, `sha2`, `hex`, `ed25519-dalek` and
  `rand` (`crypto`), the ledger and its chain rules (`ledger`), blank-line
  detection (`text`), an append form for an interactive front end (`form`)
  and the properties that hold across operations (`laws`).
- `app/` is the command line program: the JSONL file, JSON output and the
  clock.
- `tests/` runs the library on concrete keys, payloads and tampered chains.

There is no window front end: a GUI toolkit such as `eframe` brings in
hundreds of packages and system libraries, more than this crate takes on. The
logic that such a window needs (checking the form, signing and appending,
updating the list on show) is in `src/form.rs`, verified, for one to call.
