# uart-matmul

A service that multiplies matrices over a serial line, and the runtime under it: an executor and
channels between processes that are driven by user interrupts.

- `src/` is the library. It is plain computation, and all of it is verified: the frames and their
  reader, the two ends of the line, the rings and the channels over them, tokens, tasks, the run
  queue and the way to sleep, the reactor's tables, the command line, statistics.
- `tests/` runs the library.
- `app/` is the program: devices, sockets, shared memory, interrupts, clocks and floating point.
  It does what the library's sessions and runs say and tells them what came of it; the two
  receivers without a fixed number of rounds (the serial one and that of `ipc-receiver`) simply
  read until the process is to end.

The first word of the command line names a measuring program; without one the serial service runs.
`uintr-sender` and `ipc-sender` take their number of turns from `-c`.

## Frames

    0xAA, payload length (two bytes, low byte first), payload, checksum

The checksum is CRC-8/MAXIM over the length field and the payload. A payload is one of

    request   number, rows and columns of A, rows and columns of B, elements
    result    number, rows and columns, 0, 0, elements
    error     code

Elements are 32-bit floats, low byte first, row by row. The library carries their bit patterns.
Error codes: 1 the shapes do not fit together, 2 checksum, 3 malformed frame, 4 overflow.

## Reading the contracts

Types have a view; contracts speak of views. What holds of many calls stands in public proof
functions: `reader_laws`, `line_laws`, `pipeline_laws` and `shm_laws`, and at the end of `ring`, `ipc`, `pipe`,
`channel`, `executor`, `reactor`, `uintr_core`, `pipeline`, `runs`, `sender` and `receiver`.

The trusted part is small: the text of an operating system error, and sorting.
