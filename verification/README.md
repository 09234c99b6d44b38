# appledb_api

Reads the AppleDB document tree (firmware, device, device group, jailbreak and bypass
documents) and builds the JSON files of the AppleDB API, and the web listing built on them.

- `src/` is the library, verified with Verus. Documents are modelled by `json::JsonValue`
  (objects keep their members in order; a lookup finds the first member of a name;
  `json_wf` says that no object repeats a name, as in a parsed text). Each reader states the
  entry it builds as a spec function of the document's model. String-to-string maps (`ipd`,
  source hashes) are lists kept sorted by key, filled as a `BTreeMap` is (`pairs`).
- `app/` is the program around it: it walks the input directories, parses each file with
  serde_json, hands the document to the library, serialises what comes back and writes the
  entry files and the `main.json` / `index.json` lists. Run it with no argument for the API
  files, or with `adbweb` for the web listing.
- `tests/` runs the library on concrete documents.
