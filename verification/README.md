# nexterm

The verified core of an SSH client: connection profiles organised in
folders, an encrypted credential vault, profile export and import, tunnel,
terminal and session bookkeeping, and the decisions around them. Verus
proves the functions of `src/` against their `requires`/`ensures`
contracts. The calls into outside crates and std are trusted wrappers:
Verus believes their contracts, which say what the outside code is relied
on for; a few classifications of opaque values (such as `is_unsupported` on
an I/O error) state nothing of their result.

## Layout

- `src/profile.rs` — profiles, users and folders; the folder operations of a
  profiles envelope; format detection and migration of the profiles file.
- `src/profile_store.rs` — saving, deleting and reordering profiles.
- `src/vault.rs` — the credential vault (Argon2id key, AES-256-GCM blobs), its
  file record, and the credential commands.
- `src/export.rs`, `src/importing.rs` — export envelopes, encrypted export
  files, and the import of an envelope into folders and profiles.
- `src/keys.rs`, `src/auth.rs` — private keys and the choice of an
  authentication method.
- `src/session.rs`, `src/terminal.rs`, `src/tunnel.rs` — connecting, host-key
  decisions, the terminal task, port forwarding and its proxy.
- `src/crypto.rs`, `src/json.rs`, `src/text.rs`, `src/fs_secure.rs` — the
  calls into outside crates and std, each with the contract it is trusted
  with, and small text helpers.
- `app/` — files on disk, JSON for the front end, and command glue.
- `tests/` — tests run against the compiled library.
