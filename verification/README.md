# dsh_desktop

The core of a desktop application around a local agent, written in Rust and
verified with Verus.

The application starts the agent as a process of its own, and stands between it
and a window as a proxy on a port of this machine. The proxy lets in only those
who present a random token, keeps a session with the agent, shows a page that
waits while the agent is not ready, and remembers the theme of the user
interface.

- `src/` is the library. Every function states what it returns or changes, and
  Verus proves it. Its `law_` functions state what holds across functions: that
  an exchange ends, that a lock which may be held is never touched, that a
  stripped address carries no token.
- `app/` is the application around it: files, sockets, processes, the window and
  the tray icon. It does the outside work and asks the library what to do next.
- `tests/` runs the library on values.

Calls into other crates stand in the library behind small functions that are
marked `external_body`. What Verus believes of each is written above it.
