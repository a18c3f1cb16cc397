# hyprrun

Run-or-raise for Hyprland: raise a window that a command opened before, cycle
to the next such window when one is focused, and launch the command otherwise.

- `src/` is the verified library:
  - `text.rs`: character-level string operations (equality, search, splitting,
    trimming, decimal formatting) with their specifications;
  - `matching.rs`: `field[:method]=pattern` window matchers;
  - `state.rs`: the command-to-windows state, its operations and their laws;
  - `run.rs`: the run-or-raise step function that decides what to do next;
  - `hyprland.rs`: window records, `hyprctl` requests and reply checks;
  - `args.rs`: the command line.
- `app/` is the program around it: argument parsing, `hyprctl` calls, JSON
  files, logging, sleeping, and the loop that carries out each step's action.
- `tests/` exercises the library.
