# mork_server

A server for the MORK metta-calculus virtual machine: clients post transactions, a pool of workers
runs each against its own snapshot of the space, and one committer validates and installs the
results in a total order.

- `src/` is the verified library: transaction identifiers and namespaces (`transaction`, `wrap`),
  the multi-version store (`mvcc`, `paths`), the committer and recovery (`engine`, `run_loop`,
  `worker`, `steps`), the write-ahead log (`wal`), the HTTP and event-stream rules (`http`,
  `events`, `read`, `admission`), background sweeps and their scheduler (`sweep`, `scheduler`,
  `scheduler_config`), Python sessions (`python`, `expr`), numbers, texts and JSON (`float`,
  `float_text`, `text`, `bytes`, `json`) and terminal output (`output`).
- `tests/` runs the library.
- `app/` is the program around it: sockets, files, threads, child processes, and the calls into
  the `mork` kernel, all of which stand in `app/kernel.rs`. The kernel is not a registry crate;
  the program builds where `mork` and its companion crates are at hand.
