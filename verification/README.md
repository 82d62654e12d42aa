# dependaboard

The decisions behind a dashboard for open Dependabot pull requests, verified with Verus, and
the two processes that carry them out.

`src/` holds the decisions. Where a decision stands between two effects, the library
says what to do next and takes back how it went: a batch hands out its rounds and is told what
landed, a pull request's object says what to hold and what to write, a sweep says what to sync
and what to prune. Nothing in it waits, sends or reads a clock.

| module | what it decides |
| --- | --- |
| `rounds`, `batch`, `progress` | how a batch goes out, what became of each target, what is recorded |
| `pull_request` | debouncing, syncing, closing and mutating one pull request |
| `sweep`, `retirement`, `scheduler` | sweeping installations and repositories, telling what was pruned, the chain of ticks |
| `projection`, `audit` | the read model held in memory, under a database's constraints; what is read of batches |
| `github`, `fault` | what an attempt journals, how rate limits are waited out, which failures are retried |
| `webhook`, `ingress`, `headers` | what a delivery is verified as and where it goes |
| `auth`, `config`, `api`, `restate` | who may ask, the settings, what may be asked for, how Restate is addressed and answers |
| `handler`, `scripted` | how results read in the log; a GitHub that answers from a script |
| `model`, `text` | the values all of it speaks of |

`tests/` runs the library from outside. `app/` is the `service` and `web` processes: Restate
handlers, the HTTP server, the clock, the environment, and the copies of the library's types
that travel.

In `app/` GitHub and the projection's database are stand-ins behind traits: a client that
reaches no GitHub, and a projection held in memory, one in each process. The reads that page
and count the dashboard's table are not served.
