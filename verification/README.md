# devx

One command to run a whole local development stack: infrastructure
containers, services started in dependency order on OS-assigned ports, stable
reverse proxies (with TLS and per-domain virtual hosts), health checks, file
watching with restarts, a control socket, a daemon mode and a terminal
dashboard.

## Layout

- `src/` — the library, written in Verus. Every function carries a contract
  and is proved against it. It holds the decisions of the program:
  configuration rules and reload diffs, `${...}` interpolation, dependency
  waves, port offsets and the session's port bookkeeping, instance ids,
  framework detection and launch plans, health-check verdicts, the control
  protocol and its status report, daemon log lines, proxy routing, the
  dashboard's state machine, `devx init` output, watcher filters, the steps
  of a configuration reload, and the local certificate authority, the
  proxies' leaf certificate and their TLS configuration. What each
  certificate should hold is a `CertSpec`; the parameters handed to `rcgen`
  carry a model of what they hold, and the contracts prove it equals the
  spec (`tls::ca_model`, `tls::leaf_model`). The server configuration is
  built with `rustls`.
- `app/` — the `devx` binary around the library: the command line, file and
  network I/O, processes, sockets, the HTTP proxies, reading and writing the
  certificate files, local-time conversion, terminal
  drawing, and the serde forms of the configuration.
- `tests/` — tests of the library's public functions on concrete values.

The library's laws (what every operation keeps, what one call undoes) are
public proof functions next to the functions they speak of, e.g.
`deps::lemma_closure_covers`, `deps::lemma_layering_unique`,
`deps::lemma_wave_one_past_deps`,
`deps::lemma_full_request_same_order`, `ports::lemma_allocate_any_stops`,
`process::lemma_check_decides`,
`tui::app::lemma_selection_round_trip` and
`orchestrator::lemma_branch_route`.
