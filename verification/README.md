# forensic_vfs_engine

The detection and layout logic of a read-only forensic evidence engine, proved
with Verus: which filesystem, volume system or container a byte window carries,
the MBR, GPT and Apple Partition Map tables, the directory tree of archives and
logical images, the depth-capped traversal of a mounted filesystem, evidence
paths, and the epoch tags of APFS snapshots.

- `src/` — the verified library. Calls into the fleet
  reader crates stand behind small trusted wrappers whose contracts say what
  those crates do.
- `app/` — the runtime shell: file and source I/O, the `forensic-vfs` trait
  impls (probers, volume systems, container decoders, container filesystems),
  the `Vfs` handle and the filesystem walk, all delegating their decisions to
  the library.
- `tests/` — tests of the library on concrete values.
