# lspmux

A multiplexer for language servers: editors that ask for the same server in the
same workspace share one process.

- `src/` is the library. It takes the decisions, and its functions are verified
  with Verus against the contracts in their headers. What they rest on outside
  of it (some functions of `std`, and the JSON values of `serde_json`) is
  declared with doc comments that say what is claimed of it. Laws that hold
  across functions are the public proof functions at the end of the modules.
- `tests/` holds tests of the library on concrete values.
- `app/` performs what the library decides: sockets, processes, channels, tasks
  and JSON.

| Module | What it decides |
|---|---|
| `workspace`, `instance_key`, `instance_map` | which instance serves a client |
| `spawn`, `handshake` | how an instance is started and initialized |
| `instance`, `client_data`, `open_files` | who is connected, and which files count as open |
| `capabilities` | what a client that connects later is told |
| `router` | where a message of the server goes |
| `file_sync` | which files are sent anew from disk |
| `tasks`, `clock` | when a task goes on, and when an instance is idle |
| `server`, `socketwrapper` | when clients are accepted, and on which socket |
