# llm_free_gateway_v2

The core of an OpenAI-compatible HTTP gateway to LLM providers, verified with
Verus, and the program around it.

`src/` decides; it does no I/O. `app/` serves HTTP, calls the providers, reads the
configuration file and keeps the circuit breakers. `tests/` runs the library.

| Module | What it holds |
|---|---|
| `text`, `table`, `double` | texts, ordered tables, double-precision rounding |
| `config` | the configuration, its checks, its path |
| `error`, `reply` | errors and answers |
| `headers`, `auth` | header fields, Bearer authentication |
| `rate_limit` | the windows of the clients |
| `openai`, `token_counter` | requests, estimate of their tokens |
| `providers`, `provider_pool`, `breaker` | providers, their calls, notes for the circuit breakers |
| `sse` | server-sent events, read and written |
| `metrics`, `registry` | Prometheus export, journal entries |
| `handlers` | the endpoints: admission, dispatch with a second provider, account |

What is believed without proof stands in `clock`, `headers`, `auth`, `sse` and
`text`, each with the outside function that it speaks of.
