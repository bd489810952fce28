# slasshyvault

The verified core of a desktop media library that indexes cloud storage,
reads archives, fetches metadata and downloads files. Every function under
`src/` is checked by Verus against its `requires`/`ensures` contract.

## Layout

- `src/` — the library, one module per concern:
  - `archive` — recognising ZIP/TAR/RAR files, streaming ranges of stored
    entries, what playback of an entry needs, index and cache records;
  - `balloon`, `cinemeta`, `imdb` — request URLs and id rules of the two
    metadata services;
  - `config` — settings defaults, bounds, the add-on migration, the player
    checks;
  - `direct_link` — which links may be probed, what a server's answer means,
    file names from headers, records of an indexed remote archive;
  - `download` — safe file names, free target names, parallel chunk ranges,
    retries and how a transfer ends;
  - `jobs` — the store of download jobs and the rules applied when it is
    read back;
  - `titles`, `duplicates`, `merging` — title normalisation and similarity,
    merge guards, duplicate groups, the shows to merge;
  - `history` — the watch streak;
  - `paths`, `text`, `media` — shared path, text and record types.
- `tests/` — tests of the library, run against the compiled crate.
- `app/` — the application around it: files, HTTP, threads, JSON.

Laws that span several functions are public `proof fn`s named `lemma_*`
next to the functions they speak of.
