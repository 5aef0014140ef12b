# shaat

A small web chat: users sign in, talk over WebSockets, and read the latest messages over
GraphQL. This crate is its library, verified with Verus, and the server around it.

- `src/` — the library. Every function has a contract; Verus proves all of them except
  three small wrappers whose contracts are trusted: the SHA3 digest (rust-crypto), the
  GraphiQL page (juniper) and `String::push` (std).
  - `guard`, `btree`, `btree2`, `groups`: the message stores. Ids are handed out in
    order from 0; `btree` keeps one ordered map, `btree2` splits the ids into groups of a
    fixed size with one map per group.
  - `node`, `cache`, `path`: the cache of static files, which reads a file again only once
    it has been modified, and keeps one entry for all spellings of a path.
  - `chat`: the chat sessions and the HTML line that shows a message.
  - `login`, `users`: the rules of the login form and the table of users.
  - `template`, `statiq`: the page templates (lines that hold one HTML comment are
    replaced by a value) and the media types of static files.
  - `graphql`, `models`: reading a count from a query, the GraphiQL page, and the rows of
    the database.
  - `laws`: properties that relate several calls.
- `tests/` — tests of the library on concrete values.
- `app/` — the server: HTTP routes, cookies, the WebSocket actors, the database and the
  GraphQL schema. It reads requests and files, calls the library for the decisions above,
  and sends what the library computes.
