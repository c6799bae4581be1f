# backuwup

The verified core of a peer-to-peer encrypted backup system, written in Verus.

Files are cut into content-defined chunks, each chunk becomes a blob that is compressed
with zstd and encrypted with AES-256-GCM under a key derived from the blob's hash, and
blobs are packed into packfiles with an encrypted header. An index maps each blob to the
packfile that holds it. Directory trees are stored as blobs too, split into linked parts
when they have many children. Backups are exchanged between peers over an authenticated,
replay-protected transport, and a server matches storage requests between clients.

## Layout

- `src/` — the verified library.
  - `packfile.rs`, `blob_index.rs`, `formats.rs`: the packfile and index formats, with the
    law that reading a written packfile gives back each blob, and that a written index file
    loads back to its entries.
  - `tree.rs`, `dir_packer.rs`: directory trees, their encoding and splitting, and chunking.
  - `crypto.rs`, `key_manager.rs`: the cryptographic primitives and the keys derived from
    the root secret.
  - `server.rs`, `auth.rs`: storage matching, handler errors, login challenges and sessions.
  - `transport.rs`, `connection_requests.rs`: replay protection and connection requests.
  - `orchestrator.rs`, `ui.rs`, `net.rs`, `config.rs`: the decisions that drive backups and
    restores, progress reporting and configuration values.
- `tests/` — tests of the library on concrete values.
- `app/` — a command-line program that backs up a folder into packfiles and restores it.
