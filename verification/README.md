# MSearchDB

A distributed document search database.  The repository holds a library whose
behaviour is stated in contracts and proved by Verus, and a node program around it.

## Layout

- `src/`: the verified library.
  - `model`: documents, field mappings, queries and their results, consistency
    levels, cluster membership, errors.
  - `index`: schemas, what a document becomes in the index and how it is read back,
    query plans, highlighting, analyzers.
  - `network`: messages between nodes, retries, circuit breakers, the connection
    pool, scatter and gather.
  - `node`: the rules of the HTTP API, bulk requests, snapshots, sessions, the
    failure detector, gossip, metrics, the admin dashboard.
  - `text`, `table`, `json`, `clock`: what the others are built from.
- `tests/`: tests of the library, with the outside crates linked.
- `app/`: the node program: sockets, files, threads, and the calls that the library
  asks for.

## How the parts meet

The library does no input or output.  A handler of the HTTP API is a value that says
what has to be done next; the program does it and reports the outcome, and the value
moves on or gives the reply.  A search is planned by the library as plain data, and
the program runs the plan on the search engine.

Floating-point numbers are held as their bit patterns.  The library orders scores and
tells numbers from the rest; it does no arithmetic on them.

The program keeps its log and its storage behind two traits.  The implementations here
serve a single node that holds its documents in memory.
