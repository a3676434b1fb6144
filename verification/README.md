# openvm-hip

Host-side logic of a HIP/ROCm GPU backend for a STARK prover, written in
Verus and proved against its contracts.

- `src/memory_manager/` — device-memory bookkeeping: the size-class buffer
  cache (`simple_pool`), the allocation and release steps of the memory
  manager, its shutdown, and usage tracking.
- `src/error.rs` — HIP error values and the texts they display.
- `src/stream.rs` — the per-thread stream id and event statuses.
- `src/copy.rs` — copy directions and the host-to-device length check.
- `src/backend.rs` — backend marker types and checks over matrices read
  back from the device.
- `src/builder.rs` — the HIP build configuration and the decisions a build
  makes (flags, architectures, directives, tool locations).
- `src/text.rs` — decimal rendering and parsing, trimming and splitting.
- `app/` — the HIP runtime calls, the process-wide manager and its
  shutdown hooks, device buffers, `Display` error types and the compiler
  driver.
