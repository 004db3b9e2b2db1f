# shred-cache

Collects the data shreds of a ledger into packet batches, and tells when a batch is complete.

The library in `src/` is verified with [Verus](https://github.com/verus-lang/verus):

| module      | holds                                                                        |
|-------------|------------------------------------------------------------------------------|
| `shred`     | data and code shreds                                                         |
| `batch`     | one packet batch, and when it is complete                                    |
| `store`     | the concurrent map that holds the batches                                    |
| `cache`     | the cache: from shreds to batches                                            |
| `laws`      | what holds of the cache over many shreds                                     |
| `entries`   | the ledger entries in the joined bytes of a batch                            |
| `receive`   | packet batches from the datagrams of a QUIC endpoint                         |
| `fetch`     | when fetched packets are looked at, and which of them hold shreds            |
| `legacy`    | from which epoch on legacy shreds are dropped                                |
| `sigverify` | one round of the stage that feeds the cache, and when the stage stops        |
| `fixtures`  | ledger entries to try the cache with                                         |

What the outside crates do is stated at the functions that call them, in `store`, `entries`,
`legacy` and `fixtures`; each says which function it calls and what it claims of it.

The cache is changed through a unique reference. The stages in `app/`, which own the threads, the
sockets and the channels, share it behind a lock.
