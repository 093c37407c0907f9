# farol

A documentation-site generator whose core is verified with Verus.

- `src/` is the library, verified by Verus. Its functions carry
  `requires` / `ensures` contracts stating how a source path becomes a URL and
  an output file, how links are resolved and rewritten, the table of
  contents and the navigation tree, slugs, frontmatter blocks, the built-in
  plugins' HTML and Markdown transformations (admonitions, anchors, code
  blocks and includes, containers, copy buttons, edit links, reading time,
  prev/next, redirects, search text, sitemap), the content hashes and cache
  keys that decide whether a page is rebuilt, theme manifests, and the
  dev server's path and content-type rules.
- Calls into outside crates (`markdown`, `toml`, `sha2`, `syntect`,
  `two-face`, `base64`, `image`, `tantivy`'s text analyzer) stand behind
  small trusted wrappers whose contracts name or state what the crate
  returns; each says in its doc comment what is assumed. A few state
  nothing, such as the loading of `syntect`'s syntax set and theme in
  `HighlightPlugin::new`.
- Laws that relate several functions (unique anchor ids, anchors that
  follow the table of contents, a page's output file following from its
  URL, slugs that slugify to themselves, the navigation
  summary not depending on page order, a markdown text without containers
  passing through unchanged, separate hash streams for different tags, and
  others) are public proof functions.
- `app/` is the `farol` command around the library: argument parsing, the
  file walk, the build cache (`redb`), templates (`minijinja`), search
  index scoring (`tantivy`), image files read and written, and the dev
  server (`axum`, `notify`, `tokio`).
- `tests/` exercises the library on concrete inputs.
