# bz

A terminal program for working with agents: rooms with a chat and with terminals, a daemon
that keeps terminals alive, and chaperones that run them or act as agents on a chat server.

- `src/` is the library: messages and their byte forms, terminals and their activity, rooms,
  the list at the side, searching, keys, the daemon's and the chaperone's decisions, and what
  agents answer. It is verified with Verus. What it takes from other crates (`bincode`,
  `chrono`, `ratatui`, `uuid`, `vt100`) stands behind small functions whose doc comments say
  what is believed of them.
- `app/` is the programs around it, `bz`, `bzd`, `bzc` and `bz-pty-driver`: sockets, files,
  processes, the screen and the chat server.
- `tests/` runs the library.
