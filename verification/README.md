# Hurlbox

A runner for [Hurl](https://hurl.dev) files with an HTTP API: list the entries of a Hurl
text, run one entry, a range of entries, a selection of lines or the whole text, test a
text, suggest JSONPath asserts from a response and write them into the entry, run the
last command again, and browse the Hurl files of a directory.

The library (`src/`) is written in Verus and verified: every public function states what
it returns in its contract, and the properties that span functions are proved as lemmas.

- `text`, `num`: characters, lines, words, trimming, decimal numbers.
- `model`, `parser`, `serializer`, `round_trip`: a model of Hurl files, reading one from
  text and writing one back; reading back what was written gives the file again for the
  files that `round_trip::lemma_parse_serialize_round_trip` admits: no request bodies, a
  comment on the first entry at most, URLs and values without line breaks or white space
  at either end (empty ones too), enabled pairs with simple names, and captures and asserts
  whose texts read back (see `readback` for queries, predicates and asserts).
- `json`, `builder`: JSON values as read by `serde_json`, and the expected response
  suggested from a received one.
- `entries`: the entries of a Hurl text as `hurl_core` parses it, with the line where each
  request stands.
- `report`, `execution`: what the `hurl` runner reports, as plain values, and the run
  commands. Running is outside work: each command says what to run, then turns the
  runner's report into its answer and keeps the last command that succeeded.
- `assertions`: JSONPath asserts from a response body, and writing asserts into an entry.
- `pairs`, `envfile`, `api`: name and value maps, env files, and the server's settings
  (root directory and default variables, each set once; request variables override the
  defaults).
- `filetree`: the tree of Hurl files shown by the file explorer, and the root that file
  paths must stay within.
- `desktop`: the editing state of the desktop client as plain values (pair editors,
  request builder, response viewer, preview) and the Hurl file its fields make, with the
  expected response suggested from the response shown.

`app/` is the server around the library: command line, env file loading, the HTTP
routes, the calls to the `hurl` runner, and the disk work of the file explorer.
