# wasmfxtime

Runtime support for WebAssembly stack switching (typed continuations),
written in Verus: the logic is proved against its contracts, and what needs
the operating system stays in a thin layer around it.

`src/` (verified):

- `switching` — the stack switching protocol: the store of continuation
  records and the active chain, `cont.new`, `cont.bind`, `resume`,
  `suspend`, `switch` and returns, and the laws they keep (one running
  stack, the active chain reaches the main stack, handles are linear, the
  handler search covers the active chain, a resume followed by a suspend or
  a return hands control back to the resumer).
- `stacks` — stack and continuation records and the search for a tag's
  handler along a chain of stacks.
- `continuations`, `continuation` — shared layouts and encodings (states,
  stack chains, tagged pointers, control effects, packed handles), the
  linearity counter, payload buffers.
- `fibre`, `stack_pool` — fiber stacks, their page rounding and layout, and
  a pool of stacks with guard pages.
- `backtrace`, `traphandlers` — how stack walks are planned across
  activations and continuations, and the per-thread activation state.
- `table`, `poll`, `tcp` — the WASI resource table with parent/child
  links, pollable grouping, and the TCP socket state machine.
- `module_types`, `libcalls` — interned function and continuation types,
  and integer helpers called by compiled code.
- `debug_print` — planning the debug prints of generated code from a
  message with placeholders and its values.

`app/` holds the host glue: memory mappings through `rustix`, error types
with messages, floating-point helpers, the frame walk over stack memory,
and waiting on pollables. `tests/` exercises the library.
