# leo3_tooling

The build-time logic of Leo3 (Rust bindings for Lean 4), written in Verus:
Lean discovery and the build configuration, the binding analysis behind
`#[leanfn]` / `#[leanclass]` / `#[leanmodule]` / `#[lean_instance]`, the
metadata embedded in cdylibs and the Lean source generated from it.

## Layout

- `src/` — the verified library. Every public function states its result in
  `ensures`; the laws that span several functions are public proof functions.
  - `syntax`, `model` — the Rust syntax read and the binding IR produced, as
    plain values with mathematical views.
  - `analysis`, `surface`, `conversion_plan`, `instances`, `leanmodule` —
    from annotated items to bindings, Lean declarations, the plans by which
    wrappers decode parameters and encode results, and module symbols.
  - `embed`, `metadata_scan`, `codegen` — framing metadata into a binary
    section, reading an object file through the `object` crate (behind
    trusted wrappers that name what it parses), recovering the metadata from
    its symbol table, sections and PE exports, and generating `.lean` files
    from it.
  - `version`, `lean_config`, `detection`, `resolution`, `directives`,
    `windows_imports` — Lean discovery, the configuration text and hex forms,
    the resolution policy, the `cargo:` lines, and Windows import libraries.
  - `text` — character-level helpers and the few trusted wrappers over `std`
    string conversions.
- `tests/` — ordinary Rust tests of the library.
- `app/` — the `leo3-codegen` command, the build-script I/O, the `syn` →
  syntax-model conversion, token output with `quote`, and serde copies of the
  metadata types.
