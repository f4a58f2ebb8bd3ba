# courier

A small store-and-forward message server. People open accounts and register
devices; whoever has an account can post messages to a device. A message goes to
the device at once if it is connected, else it waits in a file until the device
logs in.

- `src/` is the server without its sockets and files, verified with Verus: each
  function states what it answers and how it changes the state.
  - `server`, `table`: the state, and the map that it is kept in
  - `auth`, `accounts`, `reply`: passwords, accounts and devices, and the answers
  - `wire`: the two protobuf messages
  - `delivery`: what becomes of a posted message
  - `session`: the life of a device's connection
  - `storage`, `json`: what is kept over a restart
  - `laws`: what holds of the server as a whole
- `app/` is the program around it: routes, connections, files.
- `tests/` runs the library.
