# serialmux

Multiplexing of serial ports and TCP streams over one byte link, for a Klipper
host that reaches its MCUs through a USB CDC gadget.

Two programs share one binary, which runs as the one under whose name it is
called:

* `serialmux` multiplexes UARTs, PTYs and TCP connections over framed packets
  with checksums, a handshake, keepalive and backpressure.
* `windlass-bridge` relays Klipper's own frames with one byte of overhead each,
  or, with `--smart`, terminates Klipper's transport at both ends and carries
  only decoded payloads.

## Layout

* `src/` is the library. It performs no I/O. Channels, the daemon and the
  bridge are state machines: each call takes what happened and returns what to
  do next. Every function has a contract over a mathematical model of its type,
  and Verus proves it. Functions named `law_*` state what holds of the library
  as a whole.
* `app/` is ordinary Rust around it: argument handling, the event loop, system
  calls and async tasks. Smart-proxy mode needs the crates `windlass` and
  `anchor` of the Klipper world.
* `tests/` runs the library.

## What is trusted

The library calls `crc32fast::hash`, the buffers of the `bytes` crate, and two
functions of `std` (`{:?}` on a string, and `str::trim`). Their contracts stand
in `src/protocol/frame.rs`, `src/windlass/buffer.rs` and `src/text.rs`, and are
believed without proof.
