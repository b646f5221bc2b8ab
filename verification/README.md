# mdshelf

mdshelf serves folders of Markdown files as browsable websites, each site mounted
under its own URL prefix, with optional Google sign-in and per-page access rules
written in frontmatter (`allow` / `deny`).

This crate is the verified core of mdshelf, written in Verus:

- `src/` is the library. Every function in it is verified against its `requires` /
  `ensures` contract: configuration validation, site mounts and durations, the page
  model and its loading from parts, the sidebar tree, breadcrumbs and generated
  indexes, the access-rule parser, index, resolver and doctor, in-place edits of
  `allow` lists, e-mail validation, share-link tokens, expiries and pages, the
  sign-in callback's decisions, cookies, themes, and the pure parts of exporting.
  Calls into outside crates (sha2, base64, rand, percent-encoding, serde_json,
  gray_matter) go through small trusted wrappers whose contracts say what those crates
  document.
  Properties that span functions are stated and proved as `lemma_*` proof functions.
- `app/` is a partial `mdshelf` command around it: argument parsing, reading the config
  file and the vault from disk, Markdown rendering with comrak, and printing. It
  implements `init`, `check` and the `acl` commands only. `serve`, `export`, `audit`,
  `auth` and the service commands (`install`, `uninstall`, `start`, `stop`,
  `restart`, `status`) need a web server, a database, an identity provider and a
  service manager that this build does not link; they stop with an error saying they
  are not available. Their decisions (routing, the sign-in callback, share requests,
  link pages) are in the library and tested there. `acl doctor` does not read the
  access-log database either, so it never reports a grant as unused.
- `tests/` exercise the library on concrete inputs.
