# stik

The core of the Stik notes app as a Verus-verified library: the locked-note
format, the storage routing between the local disk and iCloud, Git sharing
of note folders, the embedding index, and the rules that name and focus its
windows.

## Layout

- `src/` — the verified library.
  - `note_lock.rs`: the AES-256-GCM locked-note format, the unlock session
    and its timeout, the key file.
  - `storage.rs`: the storage mode and how each file operation is carried out
    in it (directly, or as a coordinated iCloud call of the DarwinKit bridge).
  - `git_share.rs`: settings normalisation, remote URLs, the reading of `git`
    output, conflict copies, `.gitignore` upkeep, the sync status and the
    timers of the background worker.
  - `embeddings.rs` and `keyed.rs`: content hashes, the per-note embedding
    index (a map from text keys kept without duplicates) and what the
    background build does with each note.
  - `viewing.rs`, `window_rules.rs`, `layout.rs`: note titles, window labels,
    focus rules and window sizes.
  - `text.rs`, `paths.rs`, `places.rs`: text, Unix path and home-directory
    helpers, each specified against what `std` does.
  - `crypto.rs`, `clock.rs`: the calls into `aes-gcm`, `base64`, `rand` and
    `chrono`, with the contracts that the rest relies on.
- `tests/` — tests of the library, several of them comparing it with `std`.
- `app/` — the input and output around it: files, the bridge, `git`,
  threads, JSON, and the floating-point window geometry.
