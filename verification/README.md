# system_monitor

A process monitor whose decision-making core is proved with Verus.

- `src/` is the verified library: command-line and worker-command parsing,
  settings, time and size formatting, the replay player, leak-confidence
  tracking, restart counting, the process tree, the ordering and filtering
  of the interface's tables, the leak report's grouping by allocation site
  and its buttons, the replay controls, the sampling backend's decisions
  and its sampling loop as a step function, how the interface applies what
  the backend reports, the calendar, the ratio of two counters as the
  double that floating-point division gives (computed exactly with
  integers), and the grouping and splitting of
  training runs. Every public function states what it returns in its
  contract; the `lemma_*` proof functions state properties that hold across
  calls.
- `app/` is the program around it: the command line and standard input,
  the environment, files, logging, settings files, CSV reading and the
  floating-point arithmetic, none of which the library does itself.
- `tests/` runs the library on concrete values.

Calls into other crates (the clock, the `time` crate's formatting and
parsing, string lower-casing) go through small wrappers whose contracts are stated in their
doc comments; everything built on them is verified.
