# block_duplicator

A block-level copier: bytes move from a source (file, raw device, TCP
stream, elevated worker) to a sink (file, raw device, VHDX image, TCP
stream, elevated worker) through one source/sink interface.

`src/` is the verified library:

- `io` — the `BlockSource`/`BlockSink`/`ProgressObserver` interface. An
  implementation may give a model of itself: the bytes a source holds, what
  the length queries return, the block sizes and capabilities the ends
  report, and a log of every read, write, flush and progress report. The
  promises over the model bind only an implementation that gives one;
  backends written outside verified code cannot, and are held to the rest.
- `memory` — a source, a sink and a progress log held in memory, each
  giving its model, verified against it.
- `transfer` — the copy loop and `CopyState`. For ends that give their
  model, the copy's contract says which calls it makes (reads from offset
  0 in order, each source byte handed to the sink at its own offset, a
  flush last), that the first failing call or refused length decides the
  result, that success comes when none fails, and which progress reports
  are made; lemmas show that each byte then lands in the sink exactly once
  and bound the number of calls.
- `cli` — command-line parsing, backend-kind inference, and the decisions
  taken before a copy.
- `wire` — the protocol with the elevated worker: request and reply
  encoding and incremental decoding, with round-trip proofs.
- `network`, `vhdx`, `environment`, `text` — endpoint syntax and the
  sequential-stream rule; VHDX sizing and the diskpart/PowerShell text;
  the privilege rule; decimal numbers, trimming, quoting and UTF-16.

`app/` is the program: argument handling, the backends' file, device,
process and network I/O, and the elevated worker's session loop.

The raw block-device source reports `requires_elevation: false`, as it
always has: the copy does not act on that flag. Elevation for raw devices
is decided before the copy, from `--require-elevation` and the resolved
source and sink kinds (a block source or sink, or a VHDX sink on Windows).
