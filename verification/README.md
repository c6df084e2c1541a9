# DNSRivet

A small encrypted DNS forwarder for macOS, with its logic proved in Verus.

`src/` is the library. Every function in it has a contract that Verus checks:
what a message means, what is cached and for how long, whom a query is sent to,
how the system's DNS is taken over and given back, how a configuration and a
command line are read. Properties that span several functions are stated as
public proof functions whose names start with `law_`.

`app/` is the program around it: sockets, files, processes and the outside
transports. It asks the library what to do next, does it, and reports back.

| Module | What it decides |
| --- | --- |
| `wire` | names, records, TTLs, truncation and question matching on raw messages |
| `aging`, `canonical` | which messages age and how that adds up; names and queries without regard to case |
| `cache` | the LRU response cache with TTL aging |
| `proxy` | local answers, SERVFAIL and FORMERR, framing, the watchdog's cadence |
| `upstream` | failover, bootstrap resolution, connections, plain DNS |
| `config`, `outline`, `quick` | configuration sections, unknown fields, quick options |
| `cli` | the command line |
| `osdns`, `scutil`, `takeover` | the system's DNS settings: reading, taking over, guarding, restoring |
| `service`, `launchd` | start, stop, restart, status and uninstall |
| `logger` | log lines and timestamps |
| `ip`, `ip_laws`, `text` | addresses and texts |

The library calls `lru`, `lexopt`, `toml` and `hickory-proto`. What it assumes
about them stands beside each call, on the functions marked
`#[verifier::external_body]`.
