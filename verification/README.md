# mistralrs-bench

A benchmark for language model engines. `src/` is a verified library that makes
every decision of the benchmark; `app/` is the program that talks to the engine
and prints.

| module | what it decides |
| --- | --- |
| `text` | decimal numerals, printed and read |
| `device_map` | the placement of layers on devices |
| `attention` | what the user is told of flash attention |
| `cache` | the configuration of the paged key/value cache |
| `scheduler` | how many sequences the engine schedules |
| `request` | the requests and the tests that send them |
| `bench` | test names, results, and the rates they are about |
| `run` | one test: when to send, when to await, what a reply means |
| `session` | the whole benchmark: warm-up, tests, reports |
| `report` | the result table |
| `cells` | what is relied on of `cli_table` |

Only `cells` holds contracts that are believed rather than proved. Means and
deviations are floating point and live in `app/`.
