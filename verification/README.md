# nestrs

The core of a declarative, module-based backend framework, with its rules
proved by Verus.

`src/` is the verified library:

- `container`, `scope`, `discovery`, `module` — the dependency-injection
  container and its builder, request scopes, metadata discovery, and the module
  traits.
- `graph`, `access` — the boot-time module access-graph check: a provider may
  inject only what its module's imports reach, or global infrastructure.
- `boot`, `lifecycle` — building an application in phases (seeds, collect,
  factories, register, overrides), running lifecycle hooks in a deterministic
  order, and keeping the first transport failure.
- `authz`, `authz_http` — the authorization engine (rules, predicates lowered to
  query conditions, instance checks, field masks) and its HTTP decisions.
- `auth` — bearer credentials, JSON Web Tokens, and the authentication guard's
  decision.
- `graphql`, `schema_cli` — the GraphQL endpoint's options, root composition,
  and the schema subcommand.
- `codegen`, `routes` — what the declaration attributes decide, over a plain
  model of the Rust types they read.
- `health`, `worker`, `config`, `http` — probes, the worker application, settings,
  and refusals.

`tests/` exercises the library from outside. `app/` is the runtime around it:
typed container keys, the link-time registries, the async boot and serve loop,
configuration loading, file I/O, and error types with `Display`.
