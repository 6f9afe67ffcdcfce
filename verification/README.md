# torrent_peer

The peer side of a BitTorrent client: the handshake, the choking and interest flags, the
download and upload of blocks, and the exchange of metadata for magnet links.

The library does no input or output. `Peer::run` takes one event of a conversation (a message,
a timer, an answer of the disk) and returns the actions to perform and the event to wait for.

- `src/` is the library, verified with Verus. `session.rs` holds the conversation, `laws.rs`
  what holds of every conversation; the other modules hold the formats and the data.
- `tests/` runs the library on concrete values.
- `app/` performs the actions with tokio: it opens the socket, frames the messages with the
  codec that it is given, and asks the disk.
