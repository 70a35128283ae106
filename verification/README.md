# processfox_core

The core of the ProcessFox desktop agent as a verified library.

- `src/` — the library, checked by Verus: sandboxed path resolution
  (`paths`, `sandbox`), document previews (`xml`, `zip_archive`,
  `preview_docx` with what its HTML may hold in `docx_markup`,
  `preview_pptx`, `preview_xlsx`, `previews`), agent
  records (`agent`), the background worker and its fan-out over spreadsheet
  rows (`delegation`, `delegate_xlsx`), skills (`read_skill`), file
  freshness (`freshness`), the workspace overview (`workspace`), and small
  shared pieces (`text`, `keyed`, `tool`, `error`, `license`, `providers`).
  Filesystem access and other input/output are not done here: functions are
  handed what was read and return what to do or show.
- `app/` — a command-line program around the library: reading and writing
  files, spreadsheets, agent records and the worker settings, running the sandbox checks against
  the real filesystem, the folder watcher, and the parts that need floating
  point.
- `tests/` — tests of the library's public functions.
