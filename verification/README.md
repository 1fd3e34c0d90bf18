# distributed_kv

A small distributed key-value store. Storage nodes register with a central
registry; clients ask the registry for the active nodes and then read and write
keys on them. Every message travels over TCP as a frame: a four-byte big-endian
length followed by a JSON payload of at most 1 MiB.

- `src/` is the library, verified with Verus: the message types (`model`), the
  frame format (`frame`), the client's command language (`command`), a node's
  storage and request handling (`store`, `node`), the registry (`registry`), the
  client's decisions (`client`), the command-line types (`cli`) and the text
  functions they rest on (`text`).
- `app/` is the program around it: TCP, tokio tasks, JSON encoding with serde,
  the clap command line and terminal input and output.
- `tests/` exercises the library on concrete values.
