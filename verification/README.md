# regmsg

Display and game-controller settings for REG Linux: a daemon that answers
command lines on a ZeroMQ socket (`/var/run/regmsgd.sock`), its clients, and a
display tool that works without the daemon, on Sway or directly on the DRM
device.

## Layout

- `src/` is the library, written in Verus and verified: the command registry
  and the daemon's commands, the replies to a request, the Sway and DRM
  backends' reading of the display and the commands they send, the display
  tool's reports and plans, the controller table and the game controller
  database lookup, and the clients' handling of lines and replies. The
  contracts state what each public function returns; where the answer comes
  from the live display (a `DisplayBackend`), they state what is asked of the
  backend and how its answer is passed on. The `law_*` proof functions state
  what holds across functions.
- `app/` holds the programs around it: the daemon's socket loop and signal
  handling, the shell, the command-line clients, the display tool, and the
  calls into Sway, the DRM device and the file system.
- `tests/` runs the library on concrete values.

## Programs

The program's first argument picks what it runs:

```
regmsg daemon                      # the daemon
regmsg shell [--endpoint E]        # the interactive shell
regmsg request <command> [args]    # a JSON request
regmsg tool [-s SCREEN] <command>  # the display tool, without the daemon
regmsg [-s SCREEN] <command>       # one request to the daemon
```
