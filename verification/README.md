# solana-program-recover

Recovers the bytes of an earlier version of an upgradeable Solana program
from the history of its accounts: it walks the ProgramData account's
transactions to find each deploy, upgrade and close, selects a version, then
walks that version's buffer account to gather its `Write` instructions and
rebuilds the ELF image from them.

Layout:

- `src/` is the verified library (Verus). `reconstruct` rebuilds an image from
  write chunks; `loader` decodes loader-v3 instructions and classifies them;
  `transaction` resolves account keys and orders top-level and inner
  instructions; `rpc` pages through signature lists; `recovery` holds the
  state machines that drive both walks and selects the version; `keys`,
  `cli` and `error` hold the plain types and the calls into the Solana crates.
- `app/` is the command-line program around it: argument parsing, the RPC
  client, the loops that fetch and feed the library, file output and
  printing.
- `tests/` exercises the library on concrete values.
