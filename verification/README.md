# claude_proxy

A proxy that takes streaming requests of the Anthropic Messages protocol and
passes them on to a service that speaks the OpenAI Responses or Chat
Completions protocol. What it does with requests and answers is stated in
contracts and proved with Verus.

- `src/` is the verified library.
  - `transform` turns requests of Anthropic into requests of the two protocols;
    `transform::laws` states what holds of all of them.
  - `sse` puts server-sent events together from chunks of bytes; `event` holds
    the events of Anthropic and writes them.
  - `answer`, `chat_stream`, `responses_stream` and `stream` turn an answer, as
    it comes, into events of Anthropic. `protocol` says in what order these may
    come, and the `laws` modules prove that they do.
  - `proxy`, `headers`, `upstream` and `error` decide what is sent to the
    upstream, how its answer is taken, and what is replied when something fails.
  - `json` holds documents as plain values; `json::codec` reads and writes them
    with `serde_json`. `text` holds the operations on strings.
- `app/` is the program around it: command line, log, server and HTTP client.
- `tests/` runs the library.
