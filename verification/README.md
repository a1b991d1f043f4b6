# usbipd_wsl

The logic of a small front end for usbipd-win and WSL, verified with Verus.

- `src/` is the library. `text` holds the character-level primitives
  (whitespace, trimming, lines, tokens, decimal numbers); `usb_device` reads a
  device from its `Key : Value` block; `commands` reads the device list and
  builds the `bind`/`unbind` arguments; `usbipd` finds the installation in the
  uninstall registry, chooses the devices script by version and keeps what is
  known; `runner` builds the usbipd command line, reads program output and
  describes program failures; `wsl` builds the `wsl.exe` arguments and reads
  the distribution list; `error` and `command_error` are the error types.
- `app/` is the program around it: logging, the registry, elevation, running
  the programs, and the shared state behind an async mutex.
- `tests/` runs the library on concrete inputs.
