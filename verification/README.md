# clockstop

A tray program for focus sessions. It takes down which windows are open when a session starts,
watches for drift, warns, and runs a lock command when drift is sustained and not reverted.

- `src/` is the library: everything that is decided or computed, stated in contracts and proved with
  Verus.
  - `text`, `number`, `time`: characters and words, decimal notation, spans of time
  - `identity`, `sample`, `population`, `drift`: what a window listing says, and what it has more of
    than another
  - `config`, `session`, `watch`, `state`, `notice`: the settings, the course of a session, what
    commands and samples call for, and what the user is shown and told
  - `output`, `picker`: what commands print, and the choice of a length
  - `tray`, `menu`, `icon`, `value`, `service`: the tray item and its menu on the message bus
  - `laws`, `order`, `spacing`: what holds of the program as a whole, and that neither the order and
    the layout of a listing nor the spacing of its lines matter
- `tests/` runs the library.
- `app/` is the program around it: the message bus, processes, threads, the clock and the log.

## What drift is

When a session starts, the windows of each application id are counted. Drift means that a new
application id appears or that the count of one that was there increases. While there is drift a
bucket fills by the time that passes, and else it drains. The user is warned when it holds the
threshold, and the session is locked when it holds twice the threshold.

After the lock the session cools down for as long as the threshold, from the end of the lock command
on: the bucket drains, and there is neither a warning nor a lock. When the cooldown is over, drift
counts as before.

## Settings

| variable | meaning | default |
| --- | --- | --- |
| `CLOCKSTOP_DEFAULT_MINUTES` | length of a session | `25` |
| `CLOCKSTOP_T_SECONDS` | threshold, and cooldown window | `20` |
| `CLOCKSTOP_TICK_SECONDS` | time between samples, at least a second | `2` |
| `CLOCKSTOP_SAMPLE_CMD` | lists the windows | `wlrctl toplevel list` |
| `CLOCKSTOP_SAMPLE_TEXT` | a listing in place of the command | |
| `CLOCKSTOP_LOCK_CMD` | locks the session | `swaylock-effects --screenshots --effect-pixelate 10` |
| `CLOCKSTOP_PICKER_CMD` | lets the user pick a length | `fuzzel --dmenu ...` |
| `CLOCKSTOP_LOG` | the log | `clockstop-smoke.log` |
