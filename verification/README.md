# deskd

The logic of an agent orchestration runtime, verified with Verus: how agents talk over
their buses, how their sessions are run and watched, and how their users log in.

## Layout

- `src/` is the library. Every function in it carries a contract, and the laws that relate
  several functions are public proof functions whose names begin with `law_`.
  - `text`, `json`, `yaml`, `text_map`, `crypto`, `ids`: texts, documents, maps keyed by
    text, encodings and digests, identifiers.
  - `domain`: messages, tasks, state machine instances, events.
  - `infra`: wire and storage formats, diagnostics, agent files, paths.
  - `app`: alerts, components and hot reload, context sizes and logs, the doctor, usage
    statistics, attachments, tokens between instances, serving, scopes.
  - `web`: magic links, session cookies, rate limits, pages.
  - `adapters`, `worker`, `session`, `ports`: the Telegram adapter, the worker loop, the
    stream of a session, token counts.
  - `session2graph`: a transcript as a graph.
- `tests/` runs the library on concrete values.
- `app/` is the ordinary Rust around it: the `session2graph` program, and the modules that
  read files, talk to sockets, run processes and serve HTTP.

## What is trusted

What outside crates compute is stated in the contracts of small wrappers marked
`external_body`, each with a comment that names the function it calls. Amounts of money
are integers (billionths of a dollar) in the library; floating-point numbers stay in
`app/`.

The program that runs the sessions and the family of their models are named by the caller
(`DESKD_RUNTIME` and `DESKD_MODEL_FAMILY` in `app/`). The name of the family is the first
word of the names of its models; it decides which context window a model has.

Nothing here calls `takecell`: it is a dependency of `teloxide`, named in `Cargo.toml` only
to hold it at a version that the compiler of Verus builds.
