# lib_rrttp

A reliable transport over UDP: messages are cut into frames of a fixed layout, sent through
a sliding window, acknowledged frame by frame and put back together on the other side.

- `src/` is the protocol library, verified with Verus: the frame layout and its options,
  the control bits, the sending and receiving windows and the managers that hold one window
  per channel, the application messages and their types, the one's-complement checksum, the
  first protocol version (`frame`, `transmitter`, `receiver`, `window`), and the decision
  logic of the messenger and sender demos. Proof functions named `lemma_*` state the laws
  that tie the operations together (what a read gives back of a write, what a shift keeps).
- `app/` holds what cannot be verified: sockets, threads, channels, files, the clock and
  logging. Its loops hand plain values to the library and perform the actions it returns.
- `tests/` runs the library on concrete values.
