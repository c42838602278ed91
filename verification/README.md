# Varde

The logic of Varde, a small desktop shell for Hyprland, as a library whose
behaviour is stated in `requires` / `ensures` contracts and proved with Verus,
and the GTK shell around it.

## Layout

- `src/` is the verified library:
  - `command` and `launcher::command` read the command line;
  - `notifications` holds the notification store (`state`), the snapshot the
    views draw (`model`), the popup queue (`popups`), the center's group order
    (`center`), raw-image checks (`image`), card times (`time`) and the
    server's decisions (`daemon`);
  - `launcher` ranks items for a query (`search`, with nucleo-matcher behind a
    trusted wrapper), reads clipboard history (`clipboard`), lists
    applications and selector lines (`source`) and moves the selection
    (`list`);
  - `hyprland` reads Hyprland's events and replies and decides what the
    workspace module shows;
  - `tray` models StatusNotifier items (`model`) and the registry of item
    workers (`watcher`);
  - `network`, `audio`, `bluetooth`, `battery`, `clock`, `privacy` and
    `output` read and format what the status modules show;
  - `text` holds the character-level helpers the parsers share.
- `tests/` runs the library on concrete inputs.
- `app/` is the shell itself: GTK windows, the session-bus services, the
  Hyprland socket and the commands and files the modules read. It hands plain
  values to the library and shows what comes back.

Laws that relate several functions are public proof functions named `law_*`
next to the functions they speak of.
