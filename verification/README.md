# caddyup

A library for managing the common server blocks of a Caddyfile, with its
behaviour stated in Verus contracts and proved, and a terminal editor around it.

- `src/text.rs` — characters, whitespace and trimming, searching, words and
  decimal numbers, as specifications with verified executable counterparts.
- `src/model.rs` — servers (`Site`) and the managed configuration.
- `src/caddyfile.rs` — rendering and parsing the managed block, and the
  document that keeps the text around it.
- `src/roundtrip.rs` — proofs about rendering and reading back: the text
  around the managed block is always kept, the block is found again where it
  was written, and its servers read back unchanged when each satisfies
  `site_round_trips` (not every server does: one with both encoders off
  reads back with both on, a rate limit that is off reads back with the
  default settings, and an address such as `zone` or one with a line break
  reads back as something else).
- `src/app.rs`, `src/keys.rs` — the editor's state, its operations and key
  bindings.
- `src/installer.rs`, `src/cli.rs`, `src/paths.rs` — the installer's
  decisions (where Caddy goes, where Go puts its tools), the command line,
  and paths.
- `app/` — the program: terminal, drawing, files and the commands that build
  and install Caddy.
