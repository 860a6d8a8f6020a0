# rustic_io

A small WebSocket server library whose logic is verified with Verus.

- `src/frame.rs`: message kinds, the server's frame encoder (`Message::send`)
  and the client frame decoder (`Message::load`), with the proof that a frame
  a client builds for a message is read back as that message.
- `src/handshake.rs`: reading the HTTP upgrade request and building the
  answer, with its Sec-WebSocket-Accept value (SHA-1 and base64 are called
  from rust-crypto and rustc-serialize).
- `src/text.rs`: splitting text into lines and words, and string helpers.
- `src/eventloop.rs`, `src/action.rs`, `src/socket.rs`, `src/server.rs`: the
  decisions of the event loop and of sockets.
- `src/hash.rs`: hash engine sizes and the digest it computes.
- `app/`: the threads, channels and TCP streams around the library, and an
  example echo server.
