# openresearch_cli

The verified core of the OpenResearch command-line tool and desktop
launcher. `src/` is a Verus library: each public function states what it
returns in its contract, and the properties the tool relies on across calls
are proved as `law_*` proof functions next to the code they are about.

- `src/` — the library, one module per area: chat turns and transcripts
  (`chat`, `transcript`, `turns`, `attribution`, `tool_targets`, `json`),
  run supervision and sandboxes (`supervise`, `jobs`), literature search
  (`lit`), agent skills and tasks (`skills`, `agent`), GitHub and the demo
  project (`github`, `demo`), the Oh My Pi harness (`oh_my_pi`), the desktop
  launcher and Linux app updates (`desktop`, `platform`, `linux_app`), and
  shared text routines (`text`).
- `tests/` — tests of the library on concrete values.
- `app/` — the desktop launcher program: HTTP health probes, processes,
  files and dialogs around the library's decisions, and the JSON form of
  transcript parts.
