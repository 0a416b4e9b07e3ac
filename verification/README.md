# agent_manip — LSI agent manager (`lsman`)

A command-line tool, terminal dashboard and local web dashboard for
debugging and managing the Lakeside Software (SysTrack) telemetry agent.

The project is in two parts:

- `src/` — the library, written in Verus. Everything that decides or
  computes is here with its contract: log-line triage and error grouping,
  `--since` windows, trace-level edits of `lsiagent.cfg`, source-site
  resolution, lsof parsing, the daemon control state machine, request
  routing and parameters of the web dashboard, log tails, the SQL the agent
  database is read with (table pages, string-ID and process-name
  resolution, process trees), C++ header column descriptions, the
  diagnostic report's markdown, support-bundle texts, service unit files
  and plists, and what the terminal dashboard shows and does on a key
  press.
- `app/` — the program around it: argument parsing, files, processes,
  sockets, `sqlite3`, HTTP, the terminal, and JSON. It reads what the host
  has, hands plain values to the library and prints what comes back.

The web dashboard (`lsman serve`) reads by default; its control actions
(daemon start/stop/restart, trace-level and config changes) answer only a
`POST` that carries the dashboard's control header, as `routes::route`
states.

Modules of the library:

| module | what it holds |
|---|---|
| `text`, `num`, `units`, `clock` | characters, decimal numbers, byte/time formatting, UTC civil time |
| `triage` | error-line detection, timestamps and sites of log lines, error grouping, `--since` windows and the per-line scan step |
| `trace` | reading and setting `[Debug] LogLevel2` |
| `cli`, `console` | subcommand logic and what the console prints |
| `paths`, `errors` | agent files per platform, error messages |
| `daemon`, `service` | daemon control state machine, service registration texts |
| `network` | lsof output, socket monitor |
| `report`, `collect` | diagnostic snapshot markdown, support bundle |
| `routes`, `web` | dashboard routes, query parameters, log tails |
| `db`, `table_query`, `resolve`, `process_tree`, `headers` | the agent database: names, SQL, resolutions, process trees, column descriptions |
| `tabs`, `boot`, `log_view`, `log_pane`, `ui` | the terminal dashboard and the log/SQL panes |
