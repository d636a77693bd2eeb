# quay

A minimal, language-agnostic file watcher.  It watches a directory, runs commands on
changes, and tells browser clients over WebSocket to reload a page or to take over
new CSS.

The library under `src/` holds what the watcher decides and computes, with contracts
that Verus proves.  The program under `app/` reads files, runs commands and talks to
sockets; it hands plain values to the library and performs what comes back.

| Module     | Contents                                                        |
|------------|-----------------------------------------------------------------|
| `watcher`  | events, debouncing, what is done about a change, the messages   |
| `kv`       | the bounded store of diffs and snapshots                        |
| `diff`     | line diffs of two versions of a file                            |
| `control`  | the JSON-over-TCP control protocol                              |
| `server`   | statuses of the configs, rules for connections                  |
| `config`   | entries of `quay.yaml`                                          |
| `filter`   | include and exclude patterns                                    |
| `path`     | components of paths                                             |
| `command`  | escaping for the shell, when a command is killed                |
| `debounce` | events held back until a path is quiet                          |
| `health`   | the watchdog over the worker                                    |
| `validate` | checks of the arguments                                         |
| `cli`      | what the program does with its arguments                        |
| `client`   | the script for browser clients                                  |
| `error`    | errors and their texts                                          |
| `json`, `globs`, `encoding`, `text`, `lines`, `ordered` | what the others build on |

What is taken on trust of `serde_json`, `globset`, `similar`, `base64` and the standard
library stands in `json`, `globs`, `diff`, `encoding`, `kv`, `control`, `text` and
`watcher`, each with the name of the function it speaks of.
