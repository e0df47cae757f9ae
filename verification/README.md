# tx_gen

A transaction generator for Kaspa. It prepares a pool of small outputs by splitting its largest one,
and then sends one-input, one-output payments to itself at a steady rate.

`src/` is the verified library: every decision of the generator, with contracts that Verus proves.

| Module      | What it holds                                                          |
| ----------- | ---------------------------------------------------------------------- |
| `config`    | the tunables                                                           |
| `net`       | the command line, the networks, and the check of node and address      |
| `text`      | comparing, searching and reading text                                  |
| `tx`        | transactions, outputs and addresses as plain data                      |
| `chain`     | what the Kaspa and secp256k1 libraries compute; trusted, not proved    |
| `keys`      | the secret key and its address                                         |
| `fees`      | the fees                                                               |
| `builders`  | building and signing transactions                                      |
| `utxos`     | which outputs can be spent                                             |
| `ordering`  | the order of outputs, the largest first                                |
| `split`     | the splitting phase                                                    |
| `outpoints` | a map keyed by outpoints                                               |
| `spam`      | the send phase                                                         |
| `promises`  | what the send phase keeps over many events                             |
| `meter`     | the counts of accepted payments                                        |

`app/` is the program around it: connections, timers, printing, and the pacing, which is floating
point. `tests/` runs the library against the real Kaspa crates.

The program takes `--net tn10`, `--net testnet10` or `--net devnet` (mainnet otherwise),
`--rpc-url <grpc://host:port>` and `--coinbase-maturity <daa-score>`. The secret key is set in
`app/main.rs`.
