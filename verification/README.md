# lswt

List Wayland toplevels: the titles, app-ids, identifiers and window states
of the windows that a compositor reports through the wlr, treeland or ext
foreign-toplevel protocols.

- `src/` is the library, written in Verus and verified: command-line
  resolution (`cli`), toplevel records (`toplevel`), the state kept from
  protocol events and the choice of protocol (`protocols`), the normal,
  JSON and custom listings (`output`, `json`), the interactive commands
  (`repl`) and the character-level helpers they share (`text`).
- `app/` is the program around it: reading the command line with clap,
  talking to the compositor with wayland-client, printing, pretty-printing
  JSON with serde_json, and the interactive prompt with rustyline.
- `tests/` exercise the library on concrete inputs.
