# zola_graph

Two commands of a static site generator, as a verified library:

- `translate` keeps the translations that stand beside the pages of a site up to
  date. A translation carries the hash of what it was made from, so only missing
  and stale ones are asked for. A translation that lost a brand token, or an answer
  that says that something was not translated, is never written.
- `graph refresh` keeps the graph of a site (pages, topics, relations) in step with
  its markdown files.

The library decides and computes; it does no I/O. Files, the network and the
environment are the business of `app/`.

| module | what it holds |
|---|---|
| `text`, `order`, `number`, `digest` | texts, their order, whole numbers, SHA-256 |
| `entries`, `json_value`, `toml_value` | documents as plain values |
| `failure` | what can go wrong, and the words for it |
| `page`, `locale` | front matter and body; languages and file names |
| `chunk`, `translate`, `endpoint`, `openrouter` | what is sent, and what is made of the answers |
| `translate_run` | a run of `translate`, step by step |
| `schema`, `site`, `heading`, `facts`, `graph`, `overview` | the graph and what is recorded in it |
| `refresh_run` | a run of `graph refresh`, step by step |
| `settings` | what the environment says |

Every function states in its contract what it returns. The functions whose names
begin with `law_` state what holds of several of them together: that a written
translation is read back as fresh, that splitting a body loses nothing of it, that
a pruned graph names no page that is gone. What is believed of an outside crate
stands in the doc comment of the function that calls it, next to
`external_body`.
