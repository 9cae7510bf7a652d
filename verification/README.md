# Educe

A metasearch engine: one query goes to up to twenty search sources (general,
code, Chinese content, academic), their results are merged across sources,
ranked, paged and cached, and served as a web page, a REST API and a CLI.

## Layout

- `src/` — the library, verified with Verus: request URLs and response
  parsing of every source, URL normalisation and redirect unwrapping,
  cross-source merging, paging and the TTL result cache, preferences and
  their cookie, custom sources, configuration lookups, DNS address ordering
  and the PEM trust bundle. Calls into `scraper`, `url`, `percent-encoding`,
  `base64` and `rustls-pemfile` sit behind small trusted wrappers whose
  contracts state what the crates return.
- `app/` — the `educe` program around it: command line, HTTP service,
  network clients (proxy pool, rate limiting, TLS stores, DNS resolver),
  the JS render bridge, file and environment loading, and the
  floating-point ranking scores.
- `tests/` — tests of the library.

Laws proved in `src/` are the public `law_*` proof functions (cache,
cache key, result window, a repeated search served from the cache,
merging, custom sources, preferences cookie, percent encoding, the
calendar behind Unix dates, plain text of HTML) and the `ensures` of the
functions they concern.
