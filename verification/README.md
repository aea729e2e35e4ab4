# plugin_doro

A luo9_bot plugin that gives every group member a daily "Doro ending"
picture: the same one all day, a fresh random one the next day (UTC+8).
Administrators add, remove, rename and list endings with `doro` commands.

The logic is a library verified with Verus (`src/`); the plugin around it
(`app/`) does the file, network and message-bus work.

- `src/text.rs` — decimal rendering and parsing, zero padding, trimming.
- `src/ending.rs` — the catalogue of endings and its operations, with laws:
  English names and ids stay unique, ids never exceed the largest id handed
  out, an added ending is found by its id, a snapshot loads back unchanged.
- `src/daily.rs` — which ending each user has today, and reading it back
  from its stored JSON files; laws: same day, same ending, also across
  adding, renaming and removing other endings; a new day forgets the old
  assignments; nobody gets an ending only when there are none.
- `src/date.rs` — Julian day to calendar date, shown to be the proleptic
  Gregorian calendar, and the UTC+8 date string; two instants have the
  same date exactly when they share a UTC+8 day.
- `src/image.rs` — picture types by signature and picture file names.
- `src/command.rs`, `src/reply.rs` — what a group message asks for (the
  administrators' commands only from the group's owner and administrators),
  and the reply to each request.
- `src/assets.rs` — fetching the initial assets: GitHub first, Gitee on
  failure, reading a repository listing (JSON) and what to fetch from it.
- `app/` — the plugin entry point, JSON files, HTTP downloads, messages.
