# yb_load_balance

Cluster-aware and topology-aware connection load balancing for YugabyteDB, as a
library whose behaviour is stated in contracts and proved by Verus.

A client of a cluster keeps the list of its servers up to date over a control
connection, counts the connections that it has to each server, and opens the next
one to a server that has the fewest.

- `src/` decides. It does no I/O: what has to be done over the network, it asks
  for as an action, and is told how it went.
  - `cluster`: what is known of the cluster, and what a list of servers changes.
  - `counts`, `least_loaded`, `balance`: which server is chosen.
  - `connect`: a load-balanced connection, step by step.
  - `control`: when the list of servers is fetched, and over which connection.
  - `target`, `attempts`: the configured servers and the addresses of a name.
  - `session`: one connection to one address, step by step.
  - `config`, `host`, `host_map`, `text`, `error`, `random`: what these rest on.
  - `laws`: what holds of all of it together.
- `tests/` runs the library on concrete values.
- `app/` performs the actions, over a driver that offers sockets, TLS, the
  handshake and queries.
