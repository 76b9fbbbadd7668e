# miden_debug

A debugger for programs of the Miden virtual machine: it runs them one cycle at a time, keeps
track of calls, reads memory, records and replays transactions, traces the functions that a
program runs through, and lets debug clients take part over the Debug Adapter Protocol.

## Layout

- `src/` is the library. Every function states what it does in `requires` and `ensures`, and Verus
  proves it.
  - `text`: texts, numbers in text, and their order.
  - `debug`: operations and instructions, sources, the call stack and its trace, and how memory is
    shown.
  - `exec`: setting up programs, running them cycle by cycle, hosts, limits, advice, snapshots and
    their bytes, and both sides of the debug protocol.
  - `trace`: the functions that a program runs through.
  - `snapshots`: finding recorded transactions.
  - `linker`, `package`, `config`: libraries, packages and settings.
  - `layout`: the types that packages describe, and how they are laid out.
  - `ui`: the state behind the user interface.
- `tests/` runs the library, with the virtual machine behind it.
- `app/` is what surrounds the library: the virtual machine's hosts, files, the network, the command
  line and the terminal.

## What is taken on trust

Calls into other crates stand in functions marked `#[verifier::external_body]`; the comment above
each says which function is called and what is claimed of it. Results that would take pages to
describe have a name only, a spec function without a body. What programs do in a cycle is left to
the virtual machine: the library says what it is given, and what becomes of its answer.

Results that hold of the library as a whole are public proof functions, next to what they speak of.
For example, a snapshot survives being written and read (`exec::snapshot::snapshot_reads_back`), the
cycles of all functions add up to those of the program (`trace::totals_add_up`), and recorded
events are played back in their order (`exec::host::events_play_back_in_order`).
