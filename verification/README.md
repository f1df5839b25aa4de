# spark_server

The rules of an inference server, verified with Verus: how chat requests of the
OpenAI and Anthropic surfaces become one neutral request, how the deltas of a
generation become the events of each surface, and what the scheduler and the
start-up decide.

- `src/` is the library. Every function carries a contract; the laws of a module
  stand at its end as public proof functions.
- `tests/` runs the library on concrete values.
- `app/` is the server around it: HTTP, files, the environment, the clock and
  floating-point rates.

| module | what it holds |
| --- | --- |
| `text`, `json`, `float` | characters and byte offsets, JSON values, numbers carried by their bits |
| `citation`, `citation_structured` | URLs cited in an answer, with their offsets |
| `ir` | neutral messages, requests, responses and stream deltas |
| `openai`, `anthropic` | the wire forms of both surfaces and their translation |
| `api` | the chat pipeline, message entries, the Responses stream, log-probabilities |
| `scheduler` | mode arbitration, vocabulary masks, the fast path of verify steps |
| `tokenizer` | prompts through a chat template, and look-ups in the vocabulary |
| `model_resolver`, `main_modules` | where a model is and how it is served |
| `debug_io` | dumps that name every non-ASCII character |
