# task_runtime

The verified core of a small task runtime. Tasks wait in two lanes, one for
each priority; worker threads serve one lane and steal from the other when
their own is empty.

- `src/` is the library, verified by Verus. `channel.rs` holds what is trusted
  of flume and async-task; `history.rs` what a channel holds at each moment;
  `lanes.rs` the lanes and the spawning of tasks;
  `worker.rs` what a worker does next; `runtime.rs` the settings; `join.rs`
  waiting for tasks; `server.rs` the reading rules of the server future;
  `laws.rs` what holds of lanes and workers together.
- `app/` is the program around it: threads, environment, sockets.
- `tests/` runs the library on the real outside crates.
