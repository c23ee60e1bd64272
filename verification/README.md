# slovo

The gesture catalogue of a sign-language helper, verified with Verus.

- `src/table.rs` — the `gestures` table (`id INTEGER PRIMARY KEY AUTOINCREMENT`,
  `name TEXT NOT NULL UNIQUE`, `video_filename`, `description`, `category`) as a
  mathematical model with its constraints, an in-memory table that keeps them, and the
  laws of `INSERT OR IGNORE` and of description updates.
- `src/seed.rs` — the five seed gestures, seeding, and description updates.
- `src/catalog.rs` — the headings and the grouping by category of the home screen.
- `src/detail.rs` — what the detail screen derives from a row.
- `src/text.rs` — the order of texts used for headings.
- `app/main.rs` — the program: the SQLite file, the statements, and the screens as text.
