# icie

The logic of a competitive-programming extension for VS Code, verified with Verus.

- `src/` is the library; every function in it carries a contract that Verus proves.
  - `error` — the error type with its severity, reasons, details, follow-up actions and logs.
  - `future` — the registry of replies awaited from the editor (single replies and streams).
  - `executor` — how messages from the editor are classified, how an error is logged and
    shown, which action the user picked, and what a configuration update reports.
  - `checker` — the whitespace-insensitive output comparison and the choice of checker.
  - `discover` — the state machine of the test-discovery view and its worker, and the choice
    of a file name for a new test.
  - `template`, `init`, `test_view`, `webview`, `runtime` — code templates, project
    initialization, the test view's messages, webview bookkeeping, stored configuration.
  - `text` — character and string helpers (whitespace, trimming, splitting, integer parsing
    and printing) with exact specifications.
- `tests/` runs the library on concrete values.
- `app/` is the process around the library: standard input and output, threads, logging,
  files and temporary files.
