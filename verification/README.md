# rustfrida

The verified core of a dynamic-instrumentation agent for Android on ARM64: what the agent
decides and computes, with contracts that Verus proves.

- `src/` is the library. A module holds the rules of one part of the agent: the tracing
  engine's life cycle and queues (`stalker*`, `events`), hooks and native calls (`hooks`,
  `invocations`, `native_callback`, `callback_calls`, `native_ffi`), memory as scripts see it (`memory_*`,
  `pointer`, `int64`), modules, threads and symbols (`modules`, `observers`, `process`,
  `debug_symbols`, `instructions`, `diagnostics`), the channels to the host (`communication`,
  `messaging`), Java arrays (`java`), and trace bundles (`trace_*`).
- `tests/` runs the library on concrete values.
- `app/` is ordinary Rust around it: a program that prints trace bundles, and the agent's
  system calls, sockets and files.

Where the agent waits for something outside (the kernel, the instrumentation engine, a script),
the library holds a value that says what to ask for next and takes the answer in. The public
proof functions state what holds across calls.
