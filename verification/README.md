# xhod

The decision core of an SSH connection daemon, written and proved in Verus.

A client asks the daemon to run a command, open a session or copy files on a server. The
daemon finds out which gateway leads there (a direct connection, a menu-driven bastion,
another daemon, a node that connects by itself), reuses connections where it can, has
commands reviewed, and reports what came of it. Everything that is decided on the way is a
function on plain values with a contract in `src/`.

## Layout

- `src/`: the verified library.
  - Targets and routes: `resolver`, `daemon`, `listing`, `gateway`, `config`.
  - Gateways: `direct`, `local`, `localhost`, `bastion`, `xhod`, `reverse`, with `remote`,
    `retry` and `auth` for how connections are made.
  - Connections that are kept: `connections`, `address_pool`, `session_cache`, `assoc`.
  - Requests of clients: `execute`, `session`, `relay`, `proxy`, `keys`.
  - Shells behind a terminal: `pty`, `passthrough`, `sentinel`, `output`, `navigate`,
    `assets`, `shell`.
  - Copies: `shell_copy`, `transfer`, `download`, `paths`.
  - Basics: `text`, `search`, `lists`, `ids`.
- `tests/`: tests of the library from outside.
- `app/`: sockets, files and tasks around the library. It performs what the library decides
  and hands back what came of it.

What alternates between decisions and outside work is a state machine: a spec function
`..._step` says what an event does to a state and which actions follow, `on_event` computes
it, and the proof functions named `law_...` state what holds of every run.

The functions marked `#[verifier::external_body]` call other crates or std. Their contracts
are believed, not proved; the comment above each says what is claimed.
