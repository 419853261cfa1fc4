# rustforge

Verified helpers for a Rust test-suite toolkit, written in Verus.

- `src/` — the library, verified by Verus:
  - `text` — Unicode white space, trimming, substring search, first index of a character;
  - `number` — decimal parsing of unsigned integers (optional `+`, ASCII digits, range check) and the decimal rendering it inverts;
  - `fixtures` — user and config fixtures with builders, `contains`, `assert_contains`, `retry` and its decision `retry_again`;
  - `ascii` — case-insensitive ASCII palindrome check;
  - `edge` — `clamp_len`, `safe_truncate`;
  - `input` — `utf8_input` and `parse_u32_lenient`;
  - `suite` — `suite_name`;
  - `stats` — `sum`, `max_value`, `dedup_sorted`;
  - `semantics` — `Greeter`, `longest`, `Excerpt`, `ConfigError`, `parse_timeout_ms`;
  - `syntax` — `parse_source`, `summarize_source`.
- `tests/` — executable tests of the library.
- `app/` — what needs the environment, threads, `tokio` or `libfuzzer-sys`.
