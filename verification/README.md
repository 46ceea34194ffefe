# kaze

The logic of Kaze, a Finder-style file manager, as a library verified with
Verus, and the desktop program around it.

- `src/` — the verified library:
  - `text` — character sequences, decimal numerals, lexicographic order,
    Unicode trimming, thousands separators, line splitting;
  - `paths` — joining paths, the `Path` components the library relies on,
    trash locations;
  - `file_entry` — directory entries and their size and age labels;
  - `sorting` — the orders of folder listings and search results, a stable
    sort, and the laws that a stable sort has one outcome and that folders
    lead every listing;
  - `naming` — first free names for new folders, new files and copies;
  - `trash` — where and under which name a file is trashed, `.trashinfo`;
  - `file_list` — the state of a browser pane: columns, selection, order,
    dialogs, searches, and the removal animation's bookkeeping;
  - `menus`, `presentation` — context menus, toolbar, rows and dialogs;
  - `search` — the folder walk of a search as a state machine, and the wide
    search's collection of distinct matches;
  - `sidebar`, `tabs`, `assets`, `theme` — favorites, tabs, icon lookup,
    color files and how they recolor the palette.
- `tests/` — scenarios run against the compiled library.
- `app/` — the program: windows and drawing, the filesystem, the clock,
  child processes, and the floating-point geometry of animations.
