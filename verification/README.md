# rsground

The core of a collaborative code-editing server, verified with Verus.

- `src/` is the verified library:
  - `text`, `crdt`, `ids`: the `String` edits, the `cola` replica and the
    UUID texts that the library uses, each behind a small trusted wrapper;
  - `document`: a text buffer kept in step with its CRDT replica, with a
    numbered history of edits;
  - `path`, `file_tree`, `assoc`: file paths, the file tree of a project and
    the name-keyed lists behind documents and access rights;
  - `project`: projects and the manager that holds them;
  - `protocol`: what the server answers to each client message, stated as
    the spec function `handled`;
  - `auth`: reading bearer tokens and token expiry;
  - `runner`: the commands that the code runner runs in its containers;
  - `laws`: properties that span several operations.
- `app/` is the server itself (HTTP routes, websockets, OAuth, JSON, token
  signing) and the container runner, built on the library.
- `tests/` exercises the library on concrete values.
