# ty_resolver

Asks a `ty` language server where Python names are defined.

`src/` is the library, verified with Verus. It decides and computes: how messages are framed, what
is sent, what an answer means, how positions and `file` URIs are written and read, which program is
run, and how the program ends when it can no longer print. Its contracts are stated over the
contents of the messages and the text of the documents; the public proof functions named `law_..`
state what holds of several functions together.

JSON is read and written by `serde_json`. What is believed of it, and of a few functions of the
standard library, stands in the doc comments of the `external_body` functions and of the
`assume_specification` items, most of them in `src/json.rs`.

`app/` is the program around the library: the server process, its pipes, the clock and the command
line. `tests/` runs the library on given values.
