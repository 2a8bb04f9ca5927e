# amstock

The back end of Amstock, a household inventory service for items and the
containers they are kept in. Every element has an identifier `A-BB-CC-DDDDDD`
(a category letter, two tags and a six-digit serial), may sit in one live
container, and is removed softly so that it can be restored.

The crate is written in Verus. `src/` is the verified library:

- `text` — trimming, case mapping, decimal and hexadecimal text, number parsing;
- `models`, `validation` — elements, their identifiers and the checks of their fields;
- `auth`, `crypto` — start-up settings, password hashing (Argon2id), session
  cookies and the in-memory session store;
- `printing` — label styles, the request sent to the label program, its command
  line, and the order of a container's children on a label;
- `routes` — the decisions of the endpoints, the path of an element through its
  containers and the storage tree;
- `workflow` — the steps of creating, changing and removing an element;
- `cli` — the printer options from the environment and the command line.

`app/` is the HTTP service around it (Axum, SQLx on SQLite, Tokio): it reads
the environment and the command line, runs the queries and file operations,
starts the label program, and answers in JSON.
