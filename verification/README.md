# mrubyedge (verified core)

The logic of a small mruby runtime, written in Verus with its behaviour
stated in `requires`/`ensures` contracts and proved. The bytecode
interpreter itself (the instruction decoder and the dispatch of each opcode)
is not part of this crate: what is here is the loader, the values, the
class table with its method lookup, and the built-in methods.

- `src/rite/`: the RITE (`.mrb`) binary format — headers, sections and the
  instruction, pool and symbol records of each IREP — decoded against a
  specification of the layout (`spec_load`), the tree of IREPs that the
  records list in preorder, and its conversion into the IREPs the virtual
  machine runs (`load_irep`: counts, symbol names, pool entries).
- `src/value.rs`, `src/array.rs`, `src/string.rs`, `src/integer.rs`,
  `src/args.rs`: runtime values, `==`, and the built-in methods of `Array`,
  `String` and `Integer` that work on values alone.
- `src/enumerable.rs`: the block-less `Enumerable` methods on arrays
  (`sort`, `min`, `max`, `minmax`, `sum`, `count`, `to_a`, `uniq`, `compact`).
- `src/class.rs`: classes and modules held in one table — definitions,
  method tables, constants, mixins, nesting, the table of built-in classes
  by name — and the method lookup chain that a call and `super` walk.
- `src/prelude.rs`: the built-in classes of a fresh runtime and their method
  tables, each Ruby method name bound to a tag naming its native function.
- `src/dispatch.rs`: `funcall`, which looks a method up along the receiver's
  class and runs its native function on the receiver and the arguments, for
  every native function whose logic needs neither blocks, the interpreter
  nor floats; its contract states each one's answer.
- `src/pack.rs`: `Array#pack` / `String#unpack` for the integer directives,
  with the law that unpacking what was packed gives the values back.
- `src/time.rs`: `Time` decomposition into a proleptic Gregorian date, its
  textual form, arithmetic and comparison, with the calendar proved correct.
- `src/random.rs`: `Random`, drawing from `rand_xorshift`, its generator
  determined by its seed.
- `src/vm.rs`: the bounded function table and block stack of the VM, and the
  decision at the head of the interpreter loop (which catch handler takes a
  pending exception, when a frame unwinds, when the code is done).
- `app/`: the command-line front end (file and clock access, floats).
- `tests/`: executable tests of the library.
