# snap-coin-pool

A mining pool for Snap Coin. `src/` holds the pool's rules as a Verus library:
each function states what it returns or changes, and Verus proves it. `app/` is
the server around it: configuration from the environment, the TCP server for
miners, the connection to the node, the `sled` database and the dashboard feed.

| module | what it decides |
| --- | --- |
| `difficulty`, `magnitude`, `bytes` | targets, difficulties and work units |
| `text` | hexadecimal and decimal spelling |
| `chain`, `snapcoin` | blocks and transactions, and what comes from `snap_coin` |
| `handle_share` | whether a submitted block is a share, and whether it is a block |
| `share_store` | work accounting, duplicates, payout records |
| `handle_block` | who is paid how much of a reward, and in which order of steps |
| `submission` | the way of a submitted block from the miner to the payout |
| `job_handler` | which transactions go into a job, and waiting for a lost node |
| `session`, `requests`, `ip_states` | miners: targets, allowed requests, penalties |
| `node_metrics`, `network_stats`, `mempool` | the node: health, statistics, mempool |
| `events` | what the dashboard is told |
| `config` | which settings are acceptable |
| `table` | copies of lists, and lemmas on lists of keys and values |

Public proof functions named `law_*` state what holds across functions.

What the library does not prove, it takes from the contracts of a few functions
that call `num_bigint`, `snap_coin`, `bincode`, `chrono` and the standard library. They are
marked `external_body` or `assume_specification`, in `magnitude`, `snapcoin`,
`text` and `config`.
