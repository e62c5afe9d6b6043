# wsltray

A tray indicator for WSL2: whether it runs, its share of the CPU and of the
memory of the host, and Start, Restart and Shutdown from a menu.

* `src/` is the library, in Verus: the command line and the settings file, the
  process snapshot and the numbers made of it, the state machine behind the
  window, the commands, the texts and the registry search. Every function has
  a contract; functions named `law_*` state what holds between them.
* `app/` is the Win32 program around it: window, menu, registry, process list,
  threads and files.
* `tests/` runs the library.

## Numbers

Percentages and durations are double-precision numbers. `double` computes them
exactly as IEEE 754 says, on natural numbers of any size (`natural`), so that
the contracts can say what is shown to the last digit.

## Trusted parts

Three functions of the standard library are taken at their word:
`String::push`, `char::from_u32` and `char::to_lowercase`.

## Settings

`wsltray.ini` next to the executable, or the file given with `--config`:

```
autostart = false
autoboot = false
distroname = Ubuntu
wtprofile =
icon = auto
refreshms = 5000
```

The two icons are read from `assets/icon-color.ico` and
`assets/icon-mono.ico` next to the executable.
