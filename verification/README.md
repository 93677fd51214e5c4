# igra_cli

A command-line and terminal dashboard for running an IGRA Orchestra node:
Docker Compose services, configuration in `.env`, RPC access tokens, users
with roles and Argon2id passwords, an IP allowlist, audit events, service
categories and notes, metric plugins, backups and upgrades.

- `src/` is the library, verified with Verus: every public function states
  what it returns or changes in its `requires` / `ensures`, and the laws that
  relate several functions are public proof functions named `law_*`.
- `app/` is the program around it: argument parsing, files, Docker, HTTP and
  the terminal. It hands the library plain values and acts on what comes back.
- `tests/` runs the library on concrete values.
