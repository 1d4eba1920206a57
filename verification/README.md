# agc

A client of the agent protocol, "curl for `agent://`": it dials a gateway, directly or through a
relay, sends it a prompt and shows the answer as it comes. A keyring holds one identity for each
gateway, that of its owner or that of a visitor whom the owner has let in.

`src/` is the library, verified with Verus:

- `base64`: Base64 text, both ways
- `text`, `text_map`: texts, and maps whose keys are texts
- `json`, `codec`: JSON values, and the JSON text that they are read from and written to
- `url`: agent URLs
- `wire`: one message on each line, and heartbeats in between
- `rpc`: requests, replies, the handshakes with relay and gateway
- `prompt`: a prompt and the stream that answers it
- `keyring`: the identities and the file that keeps them
- `consent`: a visitor's way to a token
- `session`: what a command line asks for, and what becomes of an answer

JSON text is read and written by `serde_json`; `codec` says what is relied on there.

`app/` is the program around it: arguments, files, connections and timeouts. `tests/` holds the
tests.
