# kr — knowledge registry

Named collections ("registries") of URI-addressed knowledge sources —
whole files (`file:///path.rs`), line ranges (`file:///path.rs#L10-L42`) or a
line onwards (`file:///path.rs#L10`) — that can be listed, searched and
dumped as one unit.

- `src/` is the library, verified with Verus:
  - `text`, `decimal`: character-level helpers and `usize` numerals;
  - `uri`: taking source URIs apart;
  - `path`, `storage`: how local sources are stored relative to the parent
    of the registry folder and resolved back;
  - `glob`: file-name patterns for `source add`;
  - `discover`: which registry folders are active (`--folder`, `.krrc`,
    `KR_FOLDER`);
  - `registry`: registries, sources, their operations, tag filtering and
    the naming of registry files;
  - `lines`, `output`: which files and lines `dump` and `search` show, and
    their headers;
  - `render`, `report`: the tables and messages the commands print;
  - `laws`: properties relating the operations to one another.
- `app/` is the `kr` command line: argument handling, the JSON registry
  files (and `export`/`import`), folder listings, and the `sed`/`rg`
  processes of `search`.
- `tests/` exercises the library.
