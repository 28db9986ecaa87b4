# Mjolnir modular builder — verified core

A Verus library holding the logic of the Mjolnir modular builder, a desktop
configurator that previews and exports combinations of a comic-style hammer
(head, handle, pommel, wrist strap) as a Bambu-style multi-plate 3MF file.

Layout:

- `src/text.rs` — character-level text operations with exact specifications:
  substring search, replacement, XML escaping, decimal printing and parsing,
  trimming of fixed-point numbers.
- `src/model.rs` — XML events, meshes, and `MeshCollector`, the fold of a 3MF
  model's events into its mesh objects.
- `src/loader.rs` — `load_3mf_bytes`: the zip package and XML reading, through
  trusted wrappers around `zip` and `quick_xml`.
- `src/selection.rs` — handle styles, libraries, roles and materials, and the
  choice of parts for a combination (`selected`).
- `src/preview.rs` — the face budget, the sampling step and the re-indexing of
  a part's preview mesh.
- `src/export.rs` — the exported package: model part, model settings, project
  settings, plate thumbnails, through trusted wrappers around `base64` and
  `uuid`.
- `app/lib.rs` — the desktop shell: embedded libraries and their cache,
  floating-point geometry, preview buffers, writing the 3MF file, Tauri
  commands.
- `tests/builder.rs` — tests on concrete values.

The application embeds its five 3MF model libraries from an `assets/`
directory next to the Tauri project.
