# etw-wrapper

A strongly typed Event Tracing for Windows (ETW) logger generator, with its logic verified
by Verus.

Point the generator at an ETW instrumentation manifest and it emits one struct per provider,
with a typed method for each event.

## Layout

- `src/` is the verified library:
  - `eventman`, `numbers`, `model`: the manifest schema and its resolution into providers,
    events and typed template fields (integer and GUID attributes, level, keyword, opcode,
    task, channel and template tables, localized messages).
  - `args`: the generator's options and provider name overrides, read from its input tokens.
  - `idents`, `message`, `plan`, `method`, `provider`: identifiers, message documentation,
    the field plans (which fields are parameters, which are derived, how each is checked and
    encoded), the event methods and the provider structs with their shared write helpers.
  - `field`, `error`, `types`, `context`: payload encoders and checks, the error type, the
    Win32 value types, and a provider's enablement state.
- `app/` is the unverified shell: the procedural-macro entry point, reading the manifest file
  with serde, turning plans into Rust tokens, and the ETW registration, enable callback and
  event writes through the Win32 API.
- `tests/` exercises the library.
