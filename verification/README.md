# Vortexa

A tiny RetNet language model that trains on any text file and chats with what
it has learned.

- `src/` is the library: what the program decides and computes with integers and
  text, verified with Verus. Each function says in its contract what it returns;
  the public proof functions named `law_*` state what holds across functions.
- `app/` is the program around it: the command line, the terminal, files,
  downloads, threads, and the tensor arithmetic, which is floating point.
- `tests/` runs the library.

Doubles and singles that the library has to compare or scale cross its border as
the bits of their IEEE 754 encodings (`binary64`, `binary32`).
