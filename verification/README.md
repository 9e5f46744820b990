# kagurarr

A bridge between Lidarr's wanted list and slskd (Soulseek): every cycle it takes
the wanted albums, searches Soulseek for `{artist} {album}`, ranks the offered
folders, downloads the best one, stages and tags it, asks Lidarr to import it,
and remembers failed (album, user, folder) combinations so that a bad match is
never tried again until its blacklist entry expires.

## Layout

- `src/` is the library, specified and proved with Verus:
  - `text` – character-level string helpers;
  - `slskd` – search responses, download requests, when to stop polling a search;
  - `scorer` – grouping responses into candidate folders, the integer and text
    parts of a score, and the stable best-first ranking above a minimum score;
  - `blacklist` – the blacklist table and its queries (failed, done, expired);
  - `config` – configuration sections and defaults;
  - `lidarr` – wanted albums and reading the outcome of an import command;
  - `staging` – the staged folder name, the path Lidarr imports from, tag targets;
  - `sync` – albums to handle, viable candidates, and the per-album state machine.
- `app/` is the program around it: configuration file, SQLite storage, HTTP
  clients, the floating-point part of scoring, and the main loop.
- `tests/` exercises the library on concrete values.
