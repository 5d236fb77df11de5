# Vigil

Vigil is a Linux init system and process supervisor: a small PID 1, a service
manager, one supervisor per service, a log writer and a control tool.

`src/` is the verified library. It holds what Vigil decides, as functions on
plain values whose contracts are proved with Verus:

| module       | what it decides |
|--------------|-----------------|
| `config`     | the configuration types and their defaults |
| `dep`        | the dependency graph and the start order |
| `target`     | which services a boot target enables and requires |
| `scanner`    | the service manager: starts, stops, respawns, reloads, requests |
| `supervisor` | watching a service, restarts, pauses and teardown |
| `readiness`  | readiness checks |
| `launch`     | log pipeline, sockets, environment, limits and identity of a service |
| `sockspec`   | listen specs and connect probes |
| `signals`    | signal names and numbers |
| `protocol`   | control messages and their framing |
| `ctl`        | how answers are printed |
| `logtail`    | the last lines of a log file |
| `rotate`     | log lines, rotation and syslog messages |
| `init`       | PID 1 |
| `path`, `text` | paths and text as sequences of characters |

What the library promises as a whole stands at the end of each module, as public
proof functions.

`app/` is the program around the library, in five roles by the name under which
it runs: `vigil`, `vigil-scan`, `vigil-supervise`, `vigil-ctl` and `vigillog`. It
reads files, forks, waits, sends signals and talks to sockets.

Wherever a function takes a time, it is in milliseconds on one clock that never
runs backwards.
