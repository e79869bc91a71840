# Cradle

Backup and restore for iPhone and iPad, with what it decides stated as contracts
and proved by Verus.

Cradle drives the libimobiledevice tools and restic. It backs a device up into a
working directory, verifies what arrived, records it in a catalog, archives
verified backups, and restores them onto the same device or another.

## Layout

- `src/` is the library. Everything in it is verified.
  - Reading: `libimobiledevice` (what the device tools print), `archive` (what
    restic prints), `plists`, `dates` and `json` (documents), `memory` (free
    memory), `crypto` (keybags and encrypted files), `binary64` (sizes, exactly
    as binary floating point rounds them), `text` and `paths`.
  - Deciding: `precheck` (what has to hold before a transfer), `verify` (what a
    backup has to pass), `backup` (when to try again, how to change encryption),
    `restore` (staging and handing a backup over), `lock` (one operation per
    working directory), `tools` (where a tool lies), `keychain` (accounts and
    passwords), `catalog` and `rows` (devices, runs, snapshots, destinations and
    archives).
  - Acting: `workflow` (the order in which backups, archives and restores go, and
    what each step leaves in the catalog), `destinations`.
  - Showing: `cli`, `commands` (the desktop application), `progress`, `notify`.
- `app/` is the `cradle` command: processes, files, SQLite, the Keychain and the
  terminal around the library.
- `tests/` runs the library on concrete values.

## What is proved

Each function's contract says what it returns or changes. The functions named
`law_...` state what holds across them: for instance that a backup which fails
verification never leaves a snapshot, that nothing is archived which was not
verified, that a run which ended is never left running, and that a keybag's
fields read back as they were written.

Calls into other crates stand behind small functions marked
`#[verifier::external_body]`. Their doc comments say what is taken on trust.
