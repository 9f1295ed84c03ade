# struxio

The logic of a document-extraction service, verified with Verus.

- `src/` — the verified library: JSON values and their canonical text,
  RFC 6901 pointers, normalization, shape validation, evidence policies,
  contract identity and hashing, backend capabilities, the job delivery
  state machine and retry backoff, queue envelopes, configuration, scopes
  and principals, and the pure decisions of the HTTP and service layers.
- `tests/` — tests run against the compiled library.
- `app/` — the service around it: environment reading, HTTP responses and
  bearer authentication (axum), the Gemini client (reqwest), S3 storage,
  the Redis Streams queue, and the contract and validator code that
  computes with floating point.
