# perch

Perch puts local development servers behind domains such as `myapp.test` on
macOS, with Caddy as the engine. This crate holds its logic as a library
verified with Verus, and the desktop side around it.

- `src/` is the verified library. Each module takes plain values (file
  contents, command output, whether a path exists) and returns what to write,
  run or show, with contracts that state the result exactly.
  - `hosts`: the managed block of `/etc/hosts`.
  - `node_env`: the `NODE_EXTRA_CA_CERTS` bundle, launch agent and
    `~/.zshenv` block.
  - `caddy_process`, `caddy_supervisor`: command lines, binary lookup, PID
    file, log summary, and the classification of running caddies.
  - `caddy_permissions`, `caddy_install`, `system_trust`, `auth_helper`:
    pre-flight checks, installation, keychain trust and the privileged helper.
  - `dns`: lookups through public resolvers, as a small state machine.
  - `commands`: the decisions of the start command.
  - `text`: the string model (lines, trimming, search, paths) shared by all.
- `app/` runs processes, touches files and sockets, and holds the serde
  copies of the library's types.
- `tests/` exercises the library on concrete values.

The public `lemma_*` proof functions state the library's laws, such as that
merging the hosts block twice changes nothing, or that removing the managed
`~/.zshenv` block right after adding it leaves the file as removing it alone
would.
