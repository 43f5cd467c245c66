# deco

The parts of an editor that decide, written in Verus: what a session of an editor does with each
command, and what an extension may do.

- `src/capability.rs`, `permissions.rs`: what an extension asks for, what the user allowed, and
  which of its requests pass.
- `src/manifest.rs`, `catalogue.rs`, `activation.rs`: which extensions there are, what they
  contribute, and when they are started.
- `src/host.rs`, `connection.rs`, `protocol.rs`: the process an extension runs in and the messages
  that travel to and from it.
- `src/workspace.rs`: an edit of several files, planned before anything is changed.
- `src/session/`: one editor session: its tabs and groups, the file tree, source control, prompts,
  the find bar, edits, snippets, and the commands that reach them.
- `src/path.rs`, `text.rs`, `editing.rs`, `snippet.rs`, `comparison.rs`, `json.rs`: what the others
  are made of.

A session does not look into a document's text: it moves texts about, and is handed what a text
engine says of them as functions and values. `app/` holds what needs files, processes and threads,
and the loop that carries out what a session asks for. `tests/` drives a session with a small text
engine of its own.

The functions of `src/` state what they return and what they change, and Verus proves it. What
holds of several of them together is stated by the functions whose names begin with `law_`.
