# bittorrent_starter_rust

A BitTorrent client whose core is verified with Verus.

- `src/` is the library: bencode values and their JSON form, torrent
  metadata and layouts, magnet links, info hashes, tracker requests and
  answers (HTTP and UDP), the peer wire protocol and metadata exchange, the
  bookkeeping of a download on disk, and the download scheduler (piece order,
  peer ranking and health, block requests, retries).  Every function carries a
  contract that Verus proves; calls into serde_bencode, sha1, hex, url and
  rand go through small trusted wrappers whose contracts are documented next
  to them.
- `app/` is the command-line program: argument parsing, sockets, HTTP, files,
  timers and the worker tasks.  It performs the I/O and asks the library what
  to do next.
- `tests/` exercises the library on concrete values.
