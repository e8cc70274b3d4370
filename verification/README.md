# hekla

An event-sourcing runtime: commands append events to a log through a consistency
boundary, projectors fold the log into read models in SQLite, effects react to events
through a journal that survives a restart, and an operator can compare a candidate with
what is deployed before deploying it.

`src/` is the library, written in Verus: every rule of the runtime, with what it promises
stated and proved.

| module | what it holds |
| --- | --- |
| `schema`, `ir` | what a project declares, and whether an entity can be served |
| `read_model`, `sql`, `batch` | a read model's statements, and applying a batch of events |
| `read_api` | filters, indexes, cursors, pages and encrypted columns |
| `projector` | whether a model on disk is current, and what a projector does next |
| `projection` | folding a projector that is not deployed, and what it comes to |
| `opdb` | invocations, their journal, cursors, declarations and subject keys |
| `runtime` | answering a command, backing off, booting, reporting status |
| `plan`, `replay`, `report`, `digest`, `program`, `edit`, `graph` | comparing a candidate with what is deployed |
| `openapi` | the API document |
| `metrics`, `progress` | what is measured, and the progress line |
| `lsp` | what the language server decides |
| `propgen` | values for property tests |
| `text`, `json`, `list`, `order`, `hash` | what the rest is built from |

`app/` is the process around it: files, databases, the event log, threads and the editor.
`tests/` runs the library from outside.
