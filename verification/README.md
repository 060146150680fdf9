# coordinator

A server that coordinates bots: they report on length-prefixed TCP connections, and it gathers them in
lobbies, assigns roles, tracks results and play time, and sends commands back.

`src/` is the library, verified with Verus. `app/` is the program around it: sockets, tasks, files,
telemetry. `tests/` runs the library.

| module | what it decides |
| --- | --- |
| `framing` | length prefixes; reading a message body as far as its sender |
| `inbound` | the reports of bots and the commands of users |
| `outbound` | the messages that bots are sent |
| `lobby`, `roles` | lobbies, and handing out roles and starter replays |
| `served` | what the requests of a whole lobby come to |
| `service` | what becomes of the lobbies on each report, command and passing of time |
| `clients` | the connected bots |
| `statistics`, `play_time` | results, the team that is to win, minutes played |
| `notify` | requests to the messengers, and their replies |
| `config`, `telemetry` | settings; timing of operations |
| `text`, `decimal`, `string_map`, `draw` | texts, numbers, maps keyed by text, chance |

Public proof functions named `law_...` state what holds across several functions.

## Protocol

A message begins with a code for its sender (`0` bot, `1` user) and one for its event; fields follow,
between colons.

| bot event | code | fields |
| --- | --- | --- |
| reconnect handshake | `0` | bot, lobby, side |
| lobby found | `1` | bot, lobby |
| in-game parameters | `2` | bot, lobby, side |
| game ended | `3` | bot, lobby, account, seconds |
| game aborted | `4` | bot, lobby |
| in-game event | `5` | bot, lobby, event |
| connect handshake | `6` | bot |

The one user event, `0`, lists the bots that are to end, between commas, after a colon.

| message to bots | text |
| --- | --- |
| health check | `0` |
| terminate | `00` |
| lobby verdict | `10` not full, `11` full |
| roles | `2` and a role for each stage, between commas |
| starter replay | `3` and its number |
| team that is to win | `4` and its side |
| leave before the game | `50` |
| in-game event | `6` and the event |
| game aborted | `70` |
| game ended | `60`, the in-game event `0` |

Roles: `0` mid lane, `1` hard lane, `2` easy lane.
