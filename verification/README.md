# evm_assets

Verified EVM asset composition for wallets and dapps: chain-native currency metadata combined with
the ERC-20 tokens that a caller names in each request. It covers balance reads, exact amount
conversion, unsigned transfer construction and transaction-history decoration. It never signs,
requests approval or broadcasts.

## Layout

`src/` is the library. Verus proves the contract of every function in it, but for the calls into
other crates that are named under Boundary: their contracts are trusted.

| module | holds |
| --- | --- |
| `text`, `digits`, `uint`, `hextext`, `address` | texts, decimal digits, 256-bit numbers, hexadecimal, addresses |
| `json`, `wire` | JSON values and their way from and to text |
| `units` | exact conversion between human decimals and base units |
| `assets`, `tokens` | asset rows, their resolution and order, the caller's token descriptors |
| `codec` | call data of ERC-20 and Multicall3 |
| `budget`, `depinit`, `verified` | time allowances, the provider's configuration, its replies and routes |
| `rows`, `history` | decoration of history rows, and of a history over several chains |
| `transfer` | settling a transfer and building its one unsigned call |
| `replies`, `provider`, `service` | the operations, as steps that ask the provider and take what comes back |

`app/` runs the operations of `service` against a client of the provider, within the time that
`budget` grants.

Laws that span functions are the public proof functions named `law_..`.

## Boundary

JSON text goes through `serde_json`, addresses, 256-bit parsing and ABI lists through `alloy`, bytes
in hexadecimal through `hex`. Each call stands behind one item marked `external_body`, or has an
`assume_specification`; its doc comment says what is claimed of it.
