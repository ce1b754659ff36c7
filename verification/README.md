# ptah_archive_decomposition

A verified library for static, fail-closed inspection and decomposition of firmware, disk-image,
archive, document, media and executable artifacts. Every public function states its behaviour
as a Verus contract (`requires` / `ensures`) and is proved against it; the proofs run with
`verus` on `src/lib.rs`.

What it covers:

- disk images: raw and Android sparse normalization with source coverage, sparse encoding,
  MBR/GPT partition maps and partition materialization;
- Android boot, vendor boot, dynamic-partition (super) and OTA payload layouts;
- archive decomposition policy (budgets, canonical member paths, inventories, stable
  decomposition identity) and progressive type detection;
- Apple firmware (IMG4 DER structure, archives, manifests), MediaTek scatter packages,
  Qualcomm and Unisoc vendor packages;
- filesystems, documents, HTML text, media and executables through caller-supplied adapters;
- a derived, rebuildable, source-bound search index.

Layout: `src/` holds the library, one module per artifact family, with the specification
functions beside the code they describe; `tests/` holds the executable tests.

Outside code: SHA-256 comes from the `sha2` crate, and a few standard-library text functions
(UTF-8 validation and lossy decoding, lowercase mapping) are called through small trusted
wrappers whose contracts are stated in their doc comments. Providers and adapters are traits
that callers implement. Each method carries a relation between its arguments and its answer
(any answer, unless an implementation narrows it); the contracts of the functions that call them
say which arguments each call is handed, and what the result is for every answer that comes back.
