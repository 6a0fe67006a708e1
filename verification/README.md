# coast_daemon

The verified core of `coastd`, the background daemon of Coasts: it runs isolated
development environments, each a container with its own Docker daemon, and forwards
their ports to the host.

`src/` is a Verus library. Every function there carries a contract that Verus proves;
the public proof functions state the properties that hold across calls.

| module | what it decides |
|---|---|
| `text` | characters of strings, decimal and hex rendering, trimming, word splitting |
| `string_map` | an insertion-ordered string map (environment variables, labels) |
| `port_manager` | socat commands, the forwarding table, checkout bridge names and commands, `ps` parsing, port probing decisions, error texts |
| `run_ports` | port mappings of an instance and their `*_DYNAMIC_PORT` variables |
| `shared_services` | names, database commands and container configuration of shared services |
| `shared_commands` | replies of `coast shared-services`, database drop target, removed volumes, the ports column |
| `secrets` | base64 encoding of secret files |
| `secret_listing` | the merged secret listing of an instance and the replies of `coast secret` |
| `image_loader`, `image_loading` | loading cached images into the inner daemon |
| `compose` | the per-instance rewrite of a compose document |
| `yaml_text` | compose text parsed with `serde_yaml` into that document, the rewrite of a compose text, its service names |
| `archive_build` | the compose override and build commands of a branch built from `git archive` |
| `run_setup`, `provision` | decisions of `coast run`: the progress plan, autostart, branches, dangling containers, provisioning phases |
| `lifecycle` | instance status transitions, readiness of a compose stack, the workspace mount |
| `start_flow` | the steps of `coast start` as a state machine, and its error texts |
| `manifest` | fields a build records in its JSON manifest (read with `serde_json`), and the workspace mount a start derives from them |
| `mcp` | MCP server install scripts and client configuration |
| `records` | state records and the shared services restored at startup |
| `user_settings` | language and analytics settings |
| `connection` | the request line of a client connection |

`tests/` exercises the library on concrete values. `app/` holds the parts that talk
to the operating system: argument parsing, daemonizing, the pid file, spawning and
killing socat, reading the image cache and writing a rewritten compose document out
as YAML text.
