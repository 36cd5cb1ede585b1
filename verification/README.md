# codlet

The core rules of Codlet, an extension runtime for Codex Desktop, as a
library whose behaviour is stated in contracts and proved with Verus.

- `src/` is the verified library: plugin manifests and permissions, broker
  policies and the OS broker's request bounds and authorisations, the
  Host's JSON-lines protocol and request ledger, plugin storage and
  credentials, lifecycle planning, managed GitHub installs, updates and
  rollback, the local-source watcher, and the official client update owner.
  Each module states its rules as spec functions over `Seq`, `Set` and
  `Map` views; the public functions are proved against them, and the
  properties that span several calls are proved as `law_*` proof
  functions.
- The few calls into `sha2`, `url` and std that are not proved are
  wrappers marked `#[verifier::external_body]`, each documented with what
  its contract claims.
- `tests/` runs the library on concrete values.
- `app/` is the command-line shell around the library: file access,
  environment and printing.
