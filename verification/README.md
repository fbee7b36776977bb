# printcher

Screen capture and annotation for Linux (X11 and Wayland), running as a
single-instance background daemon with a tray icon, a global shortcut and a
GTK4/libadwaita editor and settings window.

## Layout

- `src/` is the library, verified with Verus: functions state their
  behaviour in `requires`/`ensures` over mathematical models, and the
  properties that span several functions are proof functions (`lemma_*`).
  Where a result depends on the environment or the clock (the user's
  folders, the current time), the function states what holds of every
  outcome, and a companion (`*_in`, or one taking the date as an argument)
  states the exact result for given values.
  - `cli`, `daemon`: the command line and the single-instance protocol
    (what each command and D-Bus call does, and the decisions of the
    daemon's loops).
  - `config`: the settings, their defaults and how a settings file maps to
    them.
  - `capture`: capture file names (the `%Y %m %d %H %M %S %n` pattern), the
    destination folder, the portal's `file://` URIs; `capture::x11`: X11
    screen pixels to RGBA.
  - `editor`: keyboard and drag decisions of the editor; `editor::render`:
    the undo/redo history of annotations and the box blur on ARGB32 bytes.
  - `settings`: the choice lists, "how long ago" labels and the history of
    saved captures, newest first.
  - `shortcut`: GNOME custom keybinding lists (`gsettings` arrays).
  - `desktop`, `paths`, `text`: `.desktop` entries, directories, and text
    helpers.
- `app/` is the executable around it: files, D-Bus, portals, the tray, and
  the GTK windows with their cairo drawing.
- `tests/` exercises the library on concrete values.
