# tcexchange_backend

Verified logic of the TC Exchange backend, a small REST service for the
university exchange catalogue of INSA Lyon's Telecommunications department.

- `src/` is the library, checked by Verus:
  - `text.rs`: characters of strings, Unicode whitespace, word splitting,
    trimming, substring search, joining, decimal rendering, UTF-8 length and
    code-point order, with the sorted-set insertion used for catalogue lists;
  - `chat.rs`: the catalogue assistant (conversation language, greetings,
    country and language lists, destination matching, history search and the
    decisions taken around the AI call);
  - `compare.rs`: the comparison engine's checks, SQL text, prompts and the
    reading of the AI service's replies;
  - `routes/`: the prompts and answers of the comparison, follow-up, quiz and
    login endpoints;
  - `db.rs`, `seed.rs`, `models.rs`: database location, catalogue loading,
    the destination record.
- `app/` is the HTTP server (axum, sqlx, reqwest): routing, database access,
  calls to Groq and Gemini, and the JSON shapes of the library types.
- `tests/` runs the library on concrete inputs.
