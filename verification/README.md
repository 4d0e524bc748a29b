# zdefuser

The verified core of a zero-trust archive extractor. Archives are unpacked
inside a WebAssembly sandbox; every decision the extractor takes about an
entry is made by functions proved correct with Verus.

Layout:

- `src/` — the verified library.
  - `text.rs`: character-sequence helpers (decimal rendering, substring
    tests, quoting).
  - `path.rs`: how a path splits into components, the path sanitizer and
    its laws (every input sanitizes to a safe relative path, on Unix as on
    Windows; a path is unchanged exactly when it is already safe;
    idempotence).
  - `security.rs`: the extraction limits (file count, total size, per-entry
    and global compression ratio) and their laws.
  - `protocol.rs`: the host's command, the sandbox's events, and the choice
    of extractor.
  - `extract.rs`: per-entry decisions for zip, tar and rar archives.
  - `sevenz.rs`: the host-side 7z limits, per-entry decisions and JSON lines.
  - `host.rs`: default limits, fuel by archive size, the archive's path in
    the sandbox, framing of the sandbox's output and the first gate on it, the host's audit of the extracted tree, and the
    permission bits kept on release.
- `app/` — the programs around the library: the sandboxed extractor's
  `main` and drivers, and the host side (temporary directory, WebAssembly
  runner, audit walk, release, 7z driver, front-end commands).
- `tests/` — tests of the library on concrete inputs.
