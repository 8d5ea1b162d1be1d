# jxcel

The decision logic of the jxcel desktop shell, written in Verus and proved against its
contracts, with the Tauri application around it.

- `src/` — the verified library:
  - `lifecycle` — startup failures, the content security policy check, the logger's
    retention settings, crash records, the exit and residency rules, launch requests.
  - `menu` — menu paths, the item registry (shortcut uniqueness, identifiers, re-registration),
    the menu model and its top-level order, target routing and enablement.
  - `session` — the document session's boundary states, reasons and announcements, the
    save-location decision, the owner chain, the watched windows, the verification trigger.
  - `macro_apply`, `macro_host` — checking a macro run's changes against the document,
    duplication rounds, undo/redo assembly, capability paths and limits.
  - `ports`, `text` — window labels, the document-host contract, and text utilities.
- `tests/` — tests of the library.
- `app/` — the Tauri application: windows, native menus, commands, logging, I/O.
