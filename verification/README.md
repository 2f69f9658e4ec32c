# atomic_core

The rules of a server for Atomic Data, verified with Verus: parsing and importing JSON-AD, what a
transaction writes, how commits are applied and resources are fetched, invites, chat rooms,
versions, queries, plugins, connections to clients, shared documents, link previews and full-text
search.

- `src/` is the library. Every function states what it returns; what has to be done outside
  (reading the database, checking rights, calling a plugin) is asked for step by step, and the
  steps are functions with contracts. Calls into outside crates stand behind small functions whose
  contracts are trusted; their comments say what is claimed.
- `tests/` runs the library on concrete values, with the outside crates.
- `app/` is the terminal client and the parts of the server that read, write and listen.
