# signal_version_handover

Typed wire vocabulary for the private handover between two versions of one
component daemon: marker, readiness, completion, mirror, divergence and
recovery records, the operations and replies of the handover channel, and the
literal forms of capture dates (`YYYY-MM-DD`), capture times (`HH:MM:SS`) and
raw payload bytes (`#` followed by hex).

Layout:

- `src/calendar.rs` — `Date` and `Time`, their validity rules, literal decoding
  and encoding, and the round-trip laws.
- `src/payload.rs` — `RawPayload` and its `#hex` literal, with the round-trip
  and lowercase re-encoding laws.
- `src/records.rs` — the records and their identities, and the assembly of
  mirror and divergence payloads from their decoded fields.
- `src/channel.rs` — `Operation`, `OperationKind`, `Reply`.
- `src/text.rs` — decimal numbers, separator splitting and string helpers.
- `src/error.rs` — `DecodeError`.
- `app/lib.rs` — the text-codec, archive and channel faces of the records,
  which call into the library for the literal forms.
