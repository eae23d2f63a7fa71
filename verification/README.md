# toyoterm

The core of a programmable terminal multiplexer, written in Verus: the
workspace, window, tab and split-pane model, the commands that change it, key
and mouse input rules (what a click on the chrome, a pane or a link does, selections and mouse reports), the protocol state a pane keeps for the program that
runs in it (titles, shell integration, user variables, badges, desktop
notifications, attention hints, URL launches, clipboard copies), file
transfers, status-bar scheduling and the command-line parser. Each public
function states what it does in its `requires` and `ensures`, and Verus proves
the code against those contracts.

## Layout

- `src/`: the verified library. `lib.rs` lists the modules; `laws.rs` holds
  the properties that relate several operations or hold of every step
  (split order and pane uniqueness, workspace round trips, queued input, safe
  file names, edge bars, a pane's environment, palette matching and ranking,
  runs of splits and closes, PTY output order, notification
  spacing and the bound on tracked ids, attention permission, URL launches,
  wake-up deadlines).
- `tests/`: ordinary Rust tests that run the compiled library on concrete
  values.
- `app/`: the program around the library: argument handling, printing, the
  native PTY and the window, which the library cannot hold.

Calls into outside crates (base64, flate2, image) stand behind small trusted
wrappers whose doc comments say what their contracts claim of the outside
code.
