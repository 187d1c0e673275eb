# openai_codex

A client of the OpenAI Codex responses endpoint, with its logic verified in Verus.

- `src/` is the library. It holds everything that is decided or computed: the
  endpoint and the credentials of a request, the request and its JSON, the
  decoding of a byte stream, the framing of its events, and what is told of a
  stream while it arrives.
- `tests/` runs the library on concrete values.
- `app/` is the provider over HTTP: it reads the environment, calls the
  application's services, sends requests and moves bytes.

## Modules

| module | what it holds |
| --- | --- |
| `text` | trimming, comparing and joining texts |
| `utf8_stream` | UTF-8 that arrives in chunks |
| `json` | JSON values |
| `wire` | the response types, and how they are read from JSON |
| `stream_event` | the events of a stream, and the state they lead to |
| `sse` | cutting a stream into events |
| `session` | following a stream as it arrives |
| `body` | reading a response as a whole |
| `model` | model names and reasoning effort |
| `endpoint`, `options` | where requests go |
| `images`, `input` | what a conversation becomes in a request |
| `request` | the request and its JSON |
| `auth` | credentials and headers |
| `provider` | the provider itself |

## What is trusted

`reqwest::Url` for parsing and rewriting endpoints, `serde_json` for parsing JSON,
and three functions of the standard library: `str::from_utf8`, the text of its
error, and `str::to_ascii_lowercase`. Each stands behind a declaration that says
what is taken for granted of it.
