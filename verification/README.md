# secaxis

A tool launcher for a desktop tray: it keeps a configuration of environments
(Python and Java installations), groups and tools, checks that each tool can be
started, and builds the command that starts it.

- `src/` is the library, verified with Verus: the configuration model and its
  normalisation, argument splitting and Windows quoting (with a proof that a
  quoted token is read back as itself, and joined arguments split back), Windows path
  handling (drive and UNC prefixes), the choice of the data directory, what start-up
  does with a missing or damaged configuration file, launch planning, the tray menu
  (equal fingerprints give the same menu), icon names and data URLs, and the UTC clock
  used in log lines.
- `tests/` runs the library on concrete values.
- `app/` is the desktop shell around it: files, windows, processes and the tray.
