# ockam_profile

A verified library for Ockam profiles: a profile keeps a chain of signed change
events that create and rotate keys, the contacts (other profiles) it has verified,
and a vault that holds its secret keys.

Layout of `src/`:

- `error` — the library's error types.
- `vault` — the vault traits that a profile and a vault worker use, key and secret
  handles, and the software vault's error domain.
- `vault_model` — runs of vault requests, and what a well-formed vault keeps.
- `bare` — the BARE pieces (variable-length integers, byte strings) taken from
  `serde_bare`.
- `identifiers`, `change` — profile and event identifiers; change events and their
  models.
- `encoding` — the binary form of a set of changes, whose digest identifies an event.
- `history` — the change history: its lookups, the consistency of a chain, the
  signatures an event must carry, and the verification of events.
- `contact`, `authentication` — contacts and the contacts database; proofs of
  possession of a profile.
- `profile` — the profile and its traits, with the laws that relate its operations.
- `vault_worker` — a worker that answers vault requests.

The vault traits are implemented by the library's users. Each of their methods is
described by spec functions of the implementing type: digests, key identifiers and
the validity of a signature as functions of their arguments, and every answer as a
relation between the vault's state before the request, the request, the answer and
the vault's state after it. The library's
contracts say in these terms what it hands to the vault and what it makes of the
answers, following the vault from one state to the next through the requests of an
operation.

`vault_model` says what a well-formed vault is, of one vault value: its signatures
are valid under the public keys that it reports for its secrets, and its lookup under
a key's identifier finds a secret of that key. The laws of `profile` hold for a vault
that is well formed and whose requests keep it so: a created profile is sound, creating
and rotating keys keep it sound, a sound profile finds its secrets, and a generated
proof of possession is accepted under the current root key.

`app/` holds what the library leaves to its users: the binary forms of contacts and
change events (through `serde_bare`) and the message plumbing of the vault worker.
