# tier2

The optimizing tier of a JavaScript JIT, as a verified library. It decides what a
function is specialized for, plans which array metadata, object fields and call
targets stay guarded in registers, and emits the code of the specialized function.

## What is proved

Code is emitted into a plain list of instructions (`code`). The list has a meaning:
what it observes, what it writes, and where it leaves, for every memory, clock and
runtime that it may run against. Every emission function states what its code does in
these terms, and `lower_machine` puts the whole of a function together from them.
`assemble` hands the list to Cranelift's function builder, one step for each
instruction, and refuses a list that is not well typed. The code of a function on
tagged values is shown to be well typed (`typing`, `frame_typing`).

Planning (`array_plan`, `call_guards`, `property_cache`, `machine_plan`, `entry_state`,
`provenance`, `ownership`, `counted_loops`, put together in `planning`) is proved
against statements over the function's graph, its loops and its feedback. The course of a compilation, with its
retries, is a state machine (`tier2`).

## Layout

- `src/` is the library. Every function in it is verified, but for the wrappers
  around calls into Cranelift and the standard library: their contracts are taken
  on trust, and `clif` holds most of them.
- `tests/` runs it. The tests of emitted code run what Cranelift was handed in
  Cranelift's interpreter.
- `app/` is what surrounds the library: the host's instruction set, machine code for
  it, the engine's analyses in the order in which planning asks for them, callbacks,
  the per-thread diagnostic scope, and arithmetic on doubles.
