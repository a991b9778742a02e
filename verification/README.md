# UpSurge

UpSurge runs commands on many remote machines over SSH, from the command line
(`-c`/`-C` for connexions, `-k`/`-K` for commands) or from an interactive shell
(`/add`, `/remove`, `/connect`, `/disconnect`, `/exec`, `/network`, and the group
commands `/create_group`, `/remove_group`, `/exec [0,1,2] ...`, `/exec g <name> ...`).

Layout:

- `src/` is the verified library (Verus). `text` holds the text primitives (words,
  pieces, decimal numbers); `upsurge/` the connexion grammar `USER@IP:PORT`, the
  control network of machines and sessions, the requester's answers and the
  per-connexion command pipeline (a state machine); `cli` the command-line
  options and what they configure; `interactiv` and `groups` the shell.
  Remote work (connecting, running a command, checking and closing a session) is
  handed to the library as closures or as events, so every decision is verified
  whatever the remote side answers.
- `app/` is the program around it: argument and file reading, printing, the
  `tokio` runtime and the `openssh` calls.
- `tests/` runs the library on concrete inputs, with fake sessions.
