# rust_webhooks

A webhook catcher: it accepts any HTTP request under `/api/webhooks`, stores it
in PostgreSQL with its method, path, tenant/app/event dimensions, redacted
headers and query parameters, and body (as text when UTF-8, always as base64),
and lets consumers peek, receive (claim with a time-to-live), check in and
complete stored webhooks; operators can read lifecycle counts and states.

- `src/` is the verified library (Verus): path dimensions, sensitive-key
  patterns and redaction, base64, configuration values, the database URL, and
  the per-request decisions as a step function (`exchange`).
- `app/` is the server: routing, PostgreSQL queries and environment reading,
  driving the library's step function.
- `tests/` exercises the library on concrete values.
