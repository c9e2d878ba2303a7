# npm_audit

A renderer for `npm audit --json`: it reads npm's JSON, keeps the
vulnerabilities at or above a chosen severity, orders them by severity, finds
the dependency chains that lead to each vulnerable package, and prints a
colored report with a summary of the counts.

- `src/` is the library, verified with Verus: the data model (`models`,
  `name_map`, `chains`), the report's text (`display`, `text`, `style`) and
  the handling of npm's raw output and errors (`audit`).
- `app/` is the command-line program: argument parsing, running npm, reading
  its JSON with serde, and printing.
- `tests/` runs the library on concrete reports.
