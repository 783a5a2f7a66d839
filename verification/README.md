# metal_prims

Lowering of a tensor graph of 32-bit floats to Metal kernels.

`PrimitiveCompiler::compile` takes a graph of operators and

1. sets every host function between copies: what it reads is copied from the device, and the
   floats that it hands back are copied to the device;
2. copies from the device what is retrieved after a run;
3. copies from the device what is printed;
4. puts a Metal operator in the place of every primitive one, and hands back the kernels that
   these operators run, each once.

## Layout

- `src/` is the library, verified by Verus. `primitive` holds the compiler and says what it does
  to a graph; `readiness` tests whether a graph can be compiled. `guarantees` states what holds of
  every compiled graph, `values` that it computes what it did before. `functions`, `outputs`,
  `prints` and `lower` are the four steps. `unary`, `binary`, `reduce` and `transfer` hold the
  Metal operators: the kernel that each asks for, the inputs that it needs, and the run that it
  makes of them. `source` and `kernel` write, name and keep kernel source. `elements` and `sums`
  state what kernels make of elements. `graph` wraps `petgraph`.
- `tests/` run the library.
- `app/` holds the device: it compiles kernels, binds buffers and runs what the library plans.
