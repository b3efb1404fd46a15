# tessl

Encode runtime, GEMM and neural-network kernel dispatch for Metal 4, verified
with [Verus](https://github.com/verus-lang/verus).

The library decides everything that happens around a GPU: which buffer a request
gets, what is bound where, which kernel runs with which geometry, when a batch is
committed, what a recorded decode step replays, and what is refused before any of
it. It does not talk to a device. Each call appends to an ordered log of device
operations, and the application carries them out. It tells the library what the
device made and what it refused, and a refused grant is taken back.

- `src/` is the verified library. Each module states its behaviour over a plain
  model (`RuntimeState`, `BinderState`, `ReplayState`, ...), and each public
  function says how its result and the model after it follow from the model before.
  What the parts promise together is proved in the `laws` modules.
- `app/` is the ordinary Rust around it: opening the device, performing the log,
  files, floating point, and the benchmark programs.
- `tests/` runs the library against a simulated device.

A `GpuBuffer` is a handle, and its runtime counts the handles of every slab. Views,
recordings and replay graphs have handles of their own. A slab is handed out again
only after the last handle was given up with `recycle_buffer` or `let_go`, and the
device has caught up; a handle that is merely dropped keeps its slab for good.

Floating-point values cross the library as bit patterns: it carries them, and
never computes with them.
