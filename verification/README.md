# xfce4-niri

Tools that make an Xfce session run on the niri compositor: a session
service (single instance lock, niri check, backlight keeper, lock screen
watcher, control socket), an autostart editor, and a command line client.

- `src/` is the verified library: the desktop entry reader and autostart
  rules, the autostart list's model, the service's file checks, the
  backlight and lock screen decisions, the socket protocol, niri's socket
  and reply handling. Its functions carry contracts proved by Verus; the
  two std functions it takes on trust (`String::push`, `str::to_lowercase`)
  are declared with their contracts in `src/text.rs`.
- `app/` is the program around it: the D-Bus, GTK, xfce4util and file
  system plumbing, and `main`.
- `tests/` runs the library on concrete values.
