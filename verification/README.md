# tx_submission

Submits a Solana transaction through a pool of RPC endpoints so that it lands
quickly and at most once.

A transaction that comes in is taken apart into its instructions. For each
recent blockhash a copy is made: the instruction that sets its priority fee, the
instructions that came in (without their own compute budget instructions), and a
call that marks the transaction on chain. The sender signs each copy, and each
copy goes to every endpoint, the fastest first, until one is confirmed. The
program behind the mark refuses every copy but the first.

Nobody but the sender signs a copy. So none can be made of a transaction that
another account has to sign, nor before the account that is marked exists: the
instruction that makes that account asks for its signature.

## Layout

- `src/` is the library, verified with Verus. `cache`, `latency`, `endpoints` and
  `pool` keep what is known of the endpoints; `instruction`, `message`, `compile`,
  `rebuild` and `assemble` take transactions apart and make new ones; `dedup` and
  `program` are the two sides of the mark; `broadcast` and `delivery` decide the
  course of a submission; `submit` puts these together. `sdk`, `encoding` and
  `clock` hold the calls into other crates, with the contracts they are trusted
  for.
- `tests/` runs the library, with the other crates linked.
- `app/` is the server, the monitor and the entry of the on-chain program: the
  network, the environment and the clock.

## Running the server

Set `RPC_URLS` (separated by commas), `HELIUS_API_KEY` and
`DUPLICATE_TX_PREVENTION_PROGRAM_ID`, in the environment or in `.env`, and keep a
keypair at `~/.config/solana/id.json`. Then post a serialized transaction in
base64 to `/submit_base64`:

```sh
curl -X POST http://localhost:3000/submit_base64 \
  -H "Content-Type: application/json" \
  -d '{ "base64_tx": "..." }'
```
