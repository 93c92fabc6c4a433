# mkvlabel

A local web tool for bulk-labelling and renaming video files: scan a directory, group files
of similar running time, look up episode or feature names on TVmaze and DVDCompare, map files
to names and apply the renames.

The crate is written in Verus. `src/` is the verified library:

- `text`, `urlenc`, `paths`, `scrape` — string helpers with exact specifications, and the
  calls into `urlencoding`, `std::path`, `scraper` and `regex`, each behind a small trusted
  function whose contract names or states what it returns;
- `backend` — the server's logic: scan candidates and duration clusters, probe reports,
  size and duration formatting, rename planning and outcomes, TVmaze and DVDCompare request
  URLs and what is read from their answers, preview command lines;
- `frontend` — the browser's state, its reducer, the pending renames, the API URLs, what
  each panel shows, and the actions taken on each request and answer.

`app/` holds what Verus does not see: the Axum server (file system, processes, HTTP) and the
Yew interface, both calling the library for every decision. `tests/` runs the library on
concrete values.
