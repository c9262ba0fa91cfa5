# arpy

The protocol logic of Arpy, a small RPC framework, verified with Verus.

- `src/` is the verified library: mime types and their negotiation
  (`mime`, `http`), fallible calls (`error_from`, `rpc`), the WebSocket
  wire format with proofs that what one side writes the other reads back
  (`protocol`), routing and the session's decisions on the server
  (`server`), reading and routing replies and checking HTTP replies on the
  client (`client`), message ids (`msg_id`), documentation examples made
  from the items of a source file (`doc`) and from its text (`source`),
  and the functions of the test servers (`test_data`).
- `app/` holds the transports around it: async traits for remote functions
  and clients, axum and actix-web servers, reqwest and browser clients, and
  the reading of source files for documentation examples.
- `tests/` runs the library on concrete values, and checks the header bytes
  against `bincode` and `slotmap` themselves.
