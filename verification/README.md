# kcptun_ui

A desktop front end for kcptun clients: each tab holds one kcptun
configuration file and the client process that runs it; a settings file
(`./.config.toml`) lists the configurations and two flags.

The library (`src/`) is written in Verus and verified. It takes every
decision and hands the caller actions to perform:

- `text`: decimal and boolean text for labels.
- `uid`: random version-4 identifiers and their hyphenated text (through the
  `uuid` crate).
- `cmd`: the client command line for an operating system.
- `instance`: one configuration tab: start, stop, pick or remove a
  configuration, record the client's output, and what the tab shows.
- `settings`: the settings file's contents, loading a state from it and the
  file that saving writes.
- `control`: start or stop all clients, add and remove tabs.
- `tab`: the tab of the fixed-index layout.
- `laws`: properties across operations (saving after loading keeps the
  paths and flags, the key order is unique, loaded instances are idle).

The program (`app/`) draws the window with imgui on glium, runs the client
processes, and reads and writes the TOML settings file.
