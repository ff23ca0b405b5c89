# dsh_desktop

The verified core of a desktop shell around the `dsh web` service. The shell
starts the service, waits for the readiness line that it prints, points a
native window at the URL in that line, hides to the tray on close, restarts the
service once after each unexpected exit, and stops it on quit.

- `src/` holds what the shell decides, with contracts proved by Verus:
  - `service`: the readiness line, the drain of the service's output, the wait
    for readiness, the handle of a running service
  - `command`: the command lines for a checkout and for a release bundle
  - `stop`: the stop of a process group, `TERM` then `KILL` after a grace period
  - `shell`: launch, watch, restart and quit
  - `settings`: the one-time defaults in the user's settings file
  - `ui`: start-up order, tray menu, window and tray events
  - `text`: words, prefixes and white space
- `app/` carries the decisions out: processes, signals, files, window and tray.
- `tests/` runs the library from outside.
