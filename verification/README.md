# simple_llm_proxy

A small proxy in front of OpenAI-compatible providers (chat completions and
model listing), with its configuration and routing logic verified in Verus.

- `src/` — the verified library:
  - `text` — trailing-slash trimming, `env:NAME` key references;
  - `model_map` — insertion-ordered model-name → target maps;
  - `auth` — the table of accepted client tokens;
  - `filter` — model-name filters compiled with the `regex` crate;
  - `config` — the configuration, its processing into routing tables,
    client authorization, remap population and model-list rebuilding;
  - `proxy` — upstream settings, endpoint URLs, hop-by-hop headers;
  - `laws` — properties that span several functions.
- `app/` — the HTTP server (axum, reqwest, tokio), command-line arguments,
  reading the YAML configuration file and the process environment.
- `tests/` — tests of the library.
