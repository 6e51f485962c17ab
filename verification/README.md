# gchat_takeout

A browser for chat-export archives (a `Groups` directory of per-conversation folders with
`group_info.json` and `messages.json`), with its decisions verified by Verus.

- `src/` is the verified library:
  - `text`: character-sequence work (replacement, search, trimming, prefix removal,
    text order) with exact contracts;
  - `datetime`: the export's date texts normalised to `YYYY-MM-DD HH:MM:SS`, Pacific
    display of stored dates, and the proof that stored dates sort chronologically;
  - `models`: the export's records;
  - `takeout`: the import plan of a group directory (kind and id, members, message rows,
    latest date) and the proof that a group is listed under its latest message;
  - `queries`: the texts and bound parameters of the store's queries (search texts are
    bound as `LIKE` patterns) and the attachment paths.
- `app/` holds the SQLite store, the walk over an export directory, the commands of the
  user interface and the Tauri window.
- `tests/` exercises the library with the real `chrono`, `chrono-tz` and standard library.
