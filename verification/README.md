# pezpallets

The state logic of PezkuwiChain's own pallets as a verified library: citizenship and
identity, referrals and vouching, education and scores, the PEZ treasury and its monthly
halving schedule, the citizens' payroll, the token launchpad, encrypted messaging, the
collective's announcements, and the ping/pong exchange between chains.

Each pallet is a plain Rust value whose storage is held in maps and lists with a
mathematical view. Every call states in its `ensures` what it returns and how the storage
moves, and keeps the pallet's well-formedness predicate. Each pallet that has one carries
its `try_state` check as a verified function: it returns `Ok` exactly when the records
agree, and otherwise the first disagreement found. Public proof functions state the laws
that span calls, such as that the schedule never releases more than the allocation, that
the identity hashes keep pointing back at their holders through every register call, and
that a student's score is what the places on their courses carry.

Layout:

- `src/` — the verified library, one module per pallet, with `arith` and `scale` for the
  shared arithmetic and the call encoding. Calls into `parity-scale-codec` and
  `pezsp-runtime` stand behind small trusted wrappers whose contracts say what is assumed.
- `tests/` — the pallets' scenarios, run against the compiled library.
- `app/` — the thin layer around it: the traits through which balances, NFTs, roles, trust
  scores and the outbound message queue are reached, and the drivers that check a call,
  perform its outside effect and then commit it.
