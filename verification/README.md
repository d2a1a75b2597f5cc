# webcloner

An offline website mirror: it discovers and downloads a site's pages and
front-end assets, maps every URL to a file of the mirror, rewrites the
references in pages and stylesheets to relative paths, and can serve or zip
the result.

The library (`src/`) is written in Verus. Its functions state what they
compute in `requires`/`ensures` contracts over mathematical models (`Seq`,
`Map`, views of the data types), and Verus proves them. Laws that relate
several functions are public proof functions whose names begin with `law_`.

Layout of `src/`:

- `text`, `paths`, `patterns` — strings, Unix path strings, and the
  scanners for `url(...)`, `@import` and reference attributes.
- `urls` — URLs as the `url` crate parses, joins and serialises them.
- `utils` — URL-to-file mapping, relative paths, content sniffing.
- `rewriter` — reference extraction from HTML and CSS, and rewriting.
- `keyed` — insertion-ordered key sets and maps with unique keys.
- `downloader`, `crawl`, `progress`, `job_state` — the decisions of site
  discovery and cloning, their progress reports and checkpoints.
- `broken_links` — which local references of a mirror point at no file.
- `bundled_runtimes`, `local_server`, `net_util` — serving a project folder.
- `desktop` — the rules of the desktop front end.

`app/` holds the command-line program: argument parsing, HTTP, files,
sockets and processes, driving the library's state machines.

The desktop window (a Tauri shell, which needs the system's web view
libraries) is not built here. Its rules are in `src/desktop.rs` and the
server it drives is `app/local_server.rs`; neither has a caller in the
command-line program.
