# task_queue

A queue of tasks for coding agents. Workspaces are found below a few folders of
the user, tasks are entered for them in a dialog, stored as Markdown files in a
private folder, listed in a panel, and launched in a terminal.

- `src/` is the library. Its functions state what they return, and Verus proves
  that they do; only of the time that is read off the clock nothing is stated.
  `path`, `text`, `numbers`, `order` and `image` are the ground;
  `workspace`, `discovery`, `task` and `queue` hold the model; `attachment`,
  `front_matter`, `markdown`, `store` and `creation` store tasks; `dialog_state`,
  `dialog`, `panel` and `command` are what the user meets. What holds of several
  functions together stands in proof functions whose names begin with `law_`;
  `round_trip`, `creation_laws`, `creation_scope`, `creation_success`, `disk` and
  `creation_listing` hold the longer ones.
- `src/outside.rs` holds the calls into other crates and the standard library, and
  what is relied on about each. One more stands in `src/text.rs`.
- `tests/` runs the library.
- `app/` carries out the operations on a file system, turns records into JSON, and
  draws the views. Paths are those of POSIX systems.
