# shihaisha

Unified service management: one YAML service spec, deployed to systemd, launchd,
supervisord or a built-in process supervisor.

The library (`src/`) is written in Verus and carries its proofs:

- `types/` — service specs, statuses, resource limits and the other value types.
- `merge.rs` — layering an overlay spec over a base spec.
- `graph.rs` — dependency-aware startup order (Kahn's algorithm) and reference checks.
- `diff.rs` — structural changes between two spec documents.
- `engine/` — unit files, program sections and property lists for each init system,
  reading what their tools print, restart decisions of the native supervisor, health
  verdicts and the backend registry.
- `cli.rs` — what each command reports.

`app/` is the `shihaisha` program around it: argument parsing, YAML and JSON
documents, running `systemctl`, `launchctl`, `supervisorctl` and child processes.
