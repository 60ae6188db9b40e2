# llmperf

A token-throughput and latency benchmark for OpenAI-compatible
chat-completion endpoints. It sends streamed chat requests (single-turn or
multi-turn sessions), times the first token and the gaps between tokens, and
summarizes the run: latencies, throughputs, token counts, errors, finish
reasons and the prefix-cache hit rate.

## Layout

- `src/` is the library, verified with Verus. Every function there carries a
  `requires`/`ensures` contract over mathematical models (`Seq`, `Map`, `nat`):
  - `api::sse`: a byte-level server-sent-events decoder; the events it hands
    out do not depend on how the byte stream is cut into chunks.
  - `api::chat`: what each streamed chunk adds to the response text, the token
    arrivals that drive the timings, the finish reason and the reported usage;
    error bodies and masked API keys.
  - `api::models`: request and response shapes, endpoint URLs, header rules.
  - `prompt`: prompts built from tokenized sonnet lines in a shuffled order,
    with an exact token count.
  - `session`: multi-turn conversation history.
  - `metrics`: integer counters of a run, including the cache hit rate
    `Σ cached / Σ total tokens of non-final turns`.
  - `args`, `config`, `file`, `db`, `run`, `text`: argument checks, settings
    from environment values, result file names, the results table's SQL, run
    tallies, and decimal/text helpers.
- `app/` is the command-line program around the library: argument parsing,
  HTTP, tokenizers, random sampling and floating-point statistics, files and
  the database.
- `tests/` exercises the library on concrete values.
