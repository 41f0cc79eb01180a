# argus_core

The core of a news pipeline and of its plugin-host benchmarks, written in
Verus. The library holds the fetch stage, the settling of a decide reply,
the request building and reply parsing of the analyze and judge calls,
entity keying, clustering rules, notification rendering, delivery and
digests, and the operator-alert pass. The summarize stage and the notify
worker's debounce, digest collapse and retry scheduling are not here.

- `src/` is the verified library. Every function carries a contract over
  `Seq`, `Map` and spec functions, and the laws the pipeline relies on are
  public proof functions (round trips of persisted names, what presave writes
  the loader reads, what a read gives back of a write, duplicate detection
  keeping fields apart, calendar arithmetic).
- The ports a host implements (store, fetcher, queue, notification store,
  transport) carry answer relations that an implementation may narrow; the
  stages' contracts say what they hand to each port and what they make of
  every answer.
- Calls into `serde_json`, `roxmltree`, `sha2`, `hex` and `uuid` stand behind
  small trusted wrappers whose doc comments say what is assumed of them.
- `app/` holds what the library cannot: floating-point scoring (budget money,
  feature vectors, cluster and entity similarity), the model-provider calls
  that carry a host-reported cost, the serde forms of the queue payload,
  display wrappers and the benchmark runner's command-line edge.
- `tests/` exercises the library from outside.
