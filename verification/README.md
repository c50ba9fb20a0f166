# stormconsole

The logic of the StormCOS web console as a verified library: what each
plugin makes of the component it reads (cards, metrics, relations), who may
see and do what, the fleet log ring's decisions, the datastore's gateway
readers and snapshot stream, the watch cache, and the navigation the pages
are built from. Every function in `src/` is checked by Verus against its
contract; the properties that span functions stand as public proof
functions named `law_…`.

Layout:

- `src/` — the library, one module per plugin or concern (`k8s`, `etcd`,
  `logs`, `plugins`, and the shared `registry`, `nav`, `json`, `text`).
  Calls into outside crates (base64, chrono, serde_json, serde_yaml and
  std's Unicode and UTF-8 routines) go through small trusted wrappers whose
  contracts say what those crates do.
- `tests/` — the tests, run against the compiled library.
- `app/` — what cannot be verified: floating-point readings, HTTP, the
  redb database behind the log ring and the list+watch loop. It decides
  nothing itself; it hands each outcome to the library and does what
  comes back.
