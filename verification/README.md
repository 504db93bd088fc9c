# govdoc

Drafts, edits, stores and exports Thai government documents. The library in
`src/` is verified with Verus; `app/` is the server around it.

## Layout

- `src/schemas.rs`, `rules.rs`: the kinds of documents, and the forms of address
  that a recipient is owed.
- `src/generation.rs`, `edit.rs`, `mock.rs`: generating a document with a critic,
  editing fields, and a language model that answers by rule.
- `src/providers.rs`, `settings.rs`: what the services are asked and how their
  answers are read; the settings.
- `src/database.rs`, `sqlite.rs`, `general_store.rs`: the store, over SQLite.
  What the store does is stated as the statements that the connection is told.
- `src/tables.rs`, `general_tables.rs`: what follows for the tables of a database
  that carries the statements out.
- `src/requests.rs`, `memory.rs`, `vectors.rs`, `ingest.rs`: saved documents,
  templates and examples.
- `src/upload.rs`, `pages.rs`, `reading.rs`, `blocks.rs`, `search.rs`,
  `revising.rs`, `general.rs`: general documents, which are scans that are read,
  searched and edited page by page.
- `src/docx.rs`, `pdf.rs`, `overlay.rs`, `render.rs`: exported files.
- `src/json.rs`, `text.rs`, `number.rs`, `unicode.rs`, `sort.rs`, `fields.rs`,
  `error.rs`: the ground they stand on.

What takes turns with a service or a program (a generation, an edit, the reading
of a scan, the rendering of its pages) is a machine in the library: each state
says what is to be done next and is handed what came of it. `app/` does what the
state says.

Floating point is left to `app/`: similarities come into the library as whole
numbers that order as they do, and coordinates as the text that is printed.

Functions whose names begin with `law_` state what holds of the library as a
whole.
