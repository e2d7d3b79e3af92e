# pages

The stages of a static site generator, verified with Verus.

A bundle is a list of pages (a path, optional metadata, and how the content
is produced). Stages turn a bundle into another one: copying, moving or
ignoring selected pages, composing and sequencing stages, converting
markdown, loading metadata from shadow files, generating paths from
patterns, adding index pages, reading authors and dates from a git history,
and applying handlebars templates (page templates and asset templates that
list, group and paginate the pages of the output bundle).

- `src/` is the library. Every function has a contract over the
  mathematical view of its inputs (`deep_view`), and `src/laws.rs` states
  what holds across stages. Calls into outside crates (rayon, chrono,
  pulldown-cmark, handlebars, serde_json) go through a few small wrappers
  whose contracts are documented where they are declared.
- Composite stages (append, union, replace, compose, sequence) hold the
  library's stages and stages of the user's own (`CustomStage`); what a
  user's stage gives is whatever its `process` returns, and the composites'
  contracts say how they put those outcomes together.
- The older template stage (`HandlebarsStage`) reads its templates through
  a lookup (`HandlebarsLookup`, `HandlebarsLookupResult`); the library's
  own is a template directory, read by `app/`, and a user may bring theirs.
- `app/` holds what cannot be verified: reading template directories and
  shadow files, running npm, walking a git repository, rendering pages with
  handlebars helpers, and the serde forms of the library's types.
- `tests/` runs the library on concrete bundles.
