# keyd

A key remapping daemon for Linux, with its core written and proved in Verus.

The library (`src/`) holds the logic, each function with a contract that
Verus checks:

- `text`, `keys` — characters and key names, modifier sets and key sequences
  (`C-a`), the key code table.
- `ini`, `config`, `config_parse`, `config_impl` — the configuration model and
  its parser: INI sections, `[ids]`, `[global]`, `[aliases]`, layer sections,
  descriptors (`layer(nav)`, `overload(control, esc)`, `overloadt(...)`, ...)
  and macros. `config_parse_string` is specified exactly by
  `config_parse_spec`.
- `keyboard` — the keyboard state machine: layers, the cache of held keys,
  pending overloads with their held-back events, deadlines, and the events of
  the virtual keyboard. Every event keeps the keyboard invariant; the emitted
  key events always change the state of their key; a press of a key
  sequence, a layer key, a toggle, clear or an overload performs what the
  active layers map the key to, the key is held with that action, and its
  release undoes it. Oneshot, macro, command and timeout actions are not
  performed: their key passes through.
- `runnable` — a new configuration, and any configuration the parser or
  `config_add_entry` produces from one, can be run by the keyboard.
- `device`, `ipc`, `schedule`, `vkbd` — device ids and capabilities, the
  choice of the keyboard that takes a device, the control protocol's
  decisions, the daemon's timing decisions, and the virtual keyboard
  interface.

`app/` is the daemon around it: command line, device I/O through evdev,
uinput output, the poll loop and the control socket.

`tests/` run the library on concrete inputs.
