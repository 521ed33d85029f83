# rustchan

An anonymous imageboard: boards, threads and replies, with a small moderation panel.

The site's rules live in a library verified with Verus (`src/`); the web server around it
(`app/`) reads requests, stores uploads, keeps the data in SQLite and renders templates.

## Layout

- `src/models.rs`: boards, posts, threads, timestamps, and their values in specifications.
- `src/db.rs`: the store of boards, posts and moderators' session tokens, and every
  operation on it (listing a board's threads, making posts, moderation), each with its
  contract; the store's invariant (boards sorted by slug, post ids ascending, ids never
  reused) is kept by every operation.
- `src/text.rs`: escaping post text as HTML, line breaks, quote links, and small text rules.
- `src/author.rs`: the author id shown on posts (a SHA-256 digest in hex).
- `src/handlers.rs`: what each page and form does: who may see it (a moderator is one whose
  session cookie carries a token that a login handed out), what it shows, what it changes,
  and how a refused request is answered.
- `src/laws.rs`: properties that relate several operations, proved.
- `tests/`: tests of the library on concrete values.
- `app/`: the axum server, the SQLite tables and the templates' data.
