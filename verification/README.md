# tquic_bench

The logic of a multipath QUIC throughput benchmark, written and proved in Verus:

* the multipath schedulers (round robin, LinUCB, epsilon-greedy) and their
  per-second metrics,
* the server's streams: trigger messages, stamped datagrams, delay variation and
  statistics replies,
* the client's workers and their totals,
* the interval report and the reader of its rows,
* the control plane: command lines, process state, samples and merged results,
* the readers of the kernel's network counters and the messages of the metrics
  upload.

`src/` is the verified library. Numbers that are floating-point (model weights,
smoothed values, rendered decimals) stay with the caller: the library takes them
by their bits or as rendered text, and keeps shares as exact fractions.

`app/` is the program around it: the HTTP control plane, the drivers of the
server and the client over a QUIC transport, the linear models, and the uploads.
The upload key is read from the environment variable `WANDB_API_KEY`; without it
nothing is uploaded.

`tests/` runs the library on concrete values.
