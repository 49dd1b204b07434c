# sshell_rs

The verified core of a GTK4 desktop shell for Hyprland: bar labels, the
battery aggregate and dimmer hysteresis, JSONC configuration handling and
validation, the launcher's desktop-file parsing, ordering and fuzzy search,
workspace dots and the compositor event stream, the notification and tray
registries, the control-socket protocol, wallpaper thumbnails and commands,
weather reports, and the decisions of the bus watchers.

- `src/` is the library, verified with Verus. Calls into `serde_json` and a
  few standard-library functions stand behind trusted wrappers whose
  contracts say what the library relies on.
- `tests/` exercises the library on concrete values.
- `app/` is the program around it: windows (GTK4, layer shell), sockets,
  D-Bus services and watchers, files, processes and the command line.
