# paddock_engine

The decisions of an inference engine, verified with Verus: how much memory its caches get, when
requests are seated, stepped, preempted and finished, and which launches a walk of the qwen4exp
model makes.

- `src/kv_plan.rs`: from a memory grant to the pool of key-value blocks, or the refusal.
- `src/service/`: the serial loop and the batched loop as transitions between events. Slots,
  the block pool, prefill, speculation, the pipelined segments and the gates that pace them.
- `src/qwen4exp/`: the model as plans. Every pass is a tree of launches with what follows when
  one is declined; sizes of buffers, staged planes, n-gram rows and routes of dense products.
- `src/sampling.rs`, `src/request.rs`, `src/text.rs`, `src/knobs.rs`, `src/error.rs`: what the
  others share.
- `app/`: threads, channels, clocks, the environment, floating point and the device.
- `tests/`: the library on concrete values.

Functions named `law_*` state what holds over several calls or in every state.
