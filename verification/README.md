# cryptodropfile

A file drop service: a client encrypts files and their names with keys
derived from the user's password, and sends them as protobuf messages over
TLS to a server that stores them per user.

- `src/` is the verified library (Verus):
  - `varint`, `wire`: protobuf varints, field keys, and the prost calls that
    encode, read and skip fields;
  - `protobuf_msg`: the protocol's message, its encoding and decoding, the
    framing of several messages, and their round-trip laws;
  - `text`: decimal and `{:X}` hexadecimal text;
  - `crypto`: SHA-512 of user names (libsodium);
  - `session`: the server's decisions for a connection (login, paths,
    what each request asks for, replies);
  - `vault`: the client's sealing and opening of files and names, with a
    password or with a key already derived;
  - `client`: the requests the client's commands send and what it makes of
    the replies;
  - `logger`: the log settings.
- `app/` is the program around it: the TLS client, the TCP server, the
  disk, the log, and the examples.
- `tests/` runs the library on concrete values.
