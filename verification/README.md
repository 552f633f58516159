# kirc_server

A small IRC server whose decisions are verified with Verus.

- `src/` is the library. Everything in it is proved.
  - `text`: splitting, trimming and comparing of texts.
  - `command`, `command_laws`: the commands, the parser, and what holds of every line.
  - `client`, `channel`, `server`: the state of the server, and what happens to it when a client
    connects or is gone.
  - `message`: the lines that the server sends.
  - `handler`, `server_laws`: what the server does about a command, and what holds in every state.
  - `accept`: the decisions of the loop that accepts connections and of the wait for its clients.
- `tests/` runs the library.
- `app/` is the program: sockets, queues, tasks and the shutdown signal.

The server answers `NICK`, `USER`, `JOIN`, `PART`, `PRIVMSG`, `QUIT` and commands that lack
parameters. The other commands are read and not answered.

The library believes four things without proof, each beside its use: what
`tokio::sync::mpsc::Sender` is and that its clone is a handle of the same queue (`client`), which
characters `char::is_whitespace` holds of (`text`), and what `str::to_uppercase` does to ASCII
(`command`).
