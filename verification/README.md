# shoehorn

HTTP proxy that forwards traffic through a SOCKS5 server, with its decisions
verified by [Verus](https://github.com/verus-lang/verus).

## Layout

- `src/` decides and computes. It does no input or output; every function is
  verified against its contract. The proofs trust one function beyond Verus and
  its library: that `String::push` of the standard library appends the character
  that it is given (`text`).
- `app/` is the program: it reads the configuration file, accepts connections,
  does what the library asks for, and writes the log.
- `tests/` runs the library on concrete values.

| Module | What it holds |
| --- | --- |
| `text`, `number` | trimming, splitting, lines, case; decimal and hexadecimal numbers |
| `config` | the configuration file |
| `log` | the lines of the log |
| `runtime`, `transfer` | counters of tasks and bytes |
| `header`, `request`, `status` | the rules for header lines, request heads and status lines |
| `protocol` | the actions, events, errors and outcomes that the machines share |
| `body`, `relay`, `exchange` | passing on bodies, responses and whole exchanges |
| `connect`, `tunnel` | opening a tunnel, and carrying bytes through it |
| `session` | one client's connection from its start to its end |
| `laws`, `transcript` | what holds of every connection, and of what each end is sent |

## Config

Create `~/.config/shoehorn/shoehorn.conf`:

```ini
listen_addr=127.0.0.1:8080
socks_addr=127.0.0.1:1080
log_path=/tmp/shoehorn.log
```

`log_path` is optional. Logs always go to stderr.

## Logging

Each accepted client connection gets a strictly increasing `task=N` identifier.
Task lifecycle lines include `target` and `active_tasks`. Completed tasks also
log `elapsed_ms`, `tx_bytes`, and `rx_bytes` on task end lines.

`CONNECT` requests are tunnels, so one spawned task owns one tunnel until it
closes.
