# dynamo-llm

Support for serving large language models: routing requests to the workers that hold their
prefixes, answering OpenAI-style requests, describing models, fetching adapters, mocking engines
and analyzing how sure a model was of its tokens.

The library in `src/` is verified with Verus. Every public function states what it returns or
changes; proof functions named `law_..` state what holds across functions.

- `kv_router`: the radix tree of cached blocks, its dump, what holds of it after runs of events,
  approximate indexing with expiry and pruning, sharding, choosing a worker, cache events and snapshots.
- `http`: errors, request checks, the course of a request, metrics and histogram buckets.
- `model_card`, `local_model`: what is known of a model and how it is served.
- `lora`: where adapters are found and how they are fetched.
- `mocker`: the queues of a mocked engine and the tokens that it sends.
- `perf`: how likely the tokens of an answer were, and where it might have gone another way.
- `ranks`, `text`, `paths`, `urls`, `json_errors`, `seqs`: what the others build on.

Floating point numbers do not occur in the library. It compares them by rank (`ranks`), an integer
in the same order.

`app/` is ordinary Rust around the library: files, sockets, clocks, channels and floating point
arithmetic. `tests/` runs the library.
