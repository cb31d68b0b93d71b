# Vertex AI Proxy

A proxy server that lets clients of the Anthropic messages API use a model on Google
Cloud Vertex AI. Requests come in at `/v1/messages`, go out to the OpenAI-compatible
chat endpoint of a project, and the reply, in one piece or streamed, goes back in the
client's format.

The logic is a library verified with [Verus](https://github.com/verus-lang/verus);
the program around it is ordinary Rust.

## Layout

- `src/` is the library: every function has a contract, and Verus proves it.
  - `request`, `messages`, `content`, `tools`: from the client's request to the
    upstream one
  - `response`, `stop_reason`: from a reply in one piece to the client's
  - `sse`, `chunk`, `stream`, `event`: from a streamed reply to the client's events
  - `auth`, `assertion`, `ids`, `error`: credentials and tokens, request ids, failures
  - `log`, `display`, `tokens`: the request log, its counters and their texts
  - `cli`, `config`, `gcloud`: arguments, settings, the configured project
  - `json`, `json_text`, `text`: JSON values and texts, and what is proved of them
  - `message_laws`, `stream_laws`: what holds of every request and every streamed
    reply
- `app/` is the program: the HTTP server and client, the terminal display, files,
  environment and processes.
- `tests/` runs the library.

## What is taken on trust

Calls into serde_json (`json`, `json_text`), uuid (`ids`), chrono (`log`) and
to std's `String::from_utf8_lossy` (`sse`) stand behind small functions whose contracts
are believed, not proved. Each says in its comment what it claims.

## Configuration

| Variable | Meaning | Default |
| --- | --- | --- |
| `VERTEX_ENDPOINT` | Vertex AI endpoint | `aiplatform.googleapis.com` |
| `VERTEX_REGION` | region | `global` |
| `VERTEX_MODEL` | model | `qwen/qwen3-235b-a22b-instruct-2507-maas` |
| `VERTEX_PROJECT_ID` | project | from the credentials or the gcloud tool |
| `VERTEX_MAX_OUTPUT_TOKENS` | most output tokens of a request | `16384` |
| `PORT` | port to listen on | `8082` |
| `HOST` | address to bind, also `--host` | `127.0.0.1` |

Credentials are Google's application default credentials: the login of a user, from
`gcloud auth application-default login`, or the key of a service account, from
`gcloud auth application-default login --cred-file=service-account-key.json`.
