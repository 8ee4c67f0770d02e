# gate_air

Proofs that reversible circuits were run: a Verus library of traces, constraint
systems and lookup arguments over the field of order 2^31 - 1, and a program that
hands them to the stwo prover.

Three statements are proved.

* **Qubits in a memory** (`qubit_memory`, `components`, `shard`, `shard_proof`). A
  circuit of NOT, CNOT and Toffoli gates over 512 qubits is run `k` times on each of
  a number of inputs. Every access to a qubit is a row's lookup of the value that
  the qubit was left with; the circuit itself is a hidden table. Shots are cut into
  shards, each with a proof of its own, which a recursion folds together
  (`circuit_statement`, `leaf`, `recursion_consts`, `run`).
* **The whole state in every row** (`whole_state`, `whole_state_air`,
  `whole_state_lookups`, `whole_state_run`, `whole_state_proof`). The same, with
  rows that carry all 512 qubits in limbs of sixteen bits.
* **Repeated addition** (`iadd` and the modules beside it). A 256-bit number is
  added to another `k` times, with limbs of 29 bits that are range-checked by bits
  or by lookups.

What holds of them is stated as public proof functions:

* The tables and the main trace of an honest run claim sums that net to the public
  terms (`qubit_memory_balance`, `whole_state_balance`, `iadd_balance`), a verifier
  derives the same claims (`shard_proof`, `whole_state_proof`, `iadd_proof`), and
  the statement of a leaf balances them (`circuit_statement`).
* Every row that is built satisfies its constraints (`trace_laws`), and what the
  constraints look up is what the claims sum up (`lookup_agreement`).
* Conversely, rows that satisfy their constraints and whose lookups balance show a
  real execution: the last state is what the circuit makes of the first
  (`execution_laws`, and `whole_state_laws` with `whole_state_execution`), and a test
  vector ends with its sum (`iadd_laws` with `iadd_execution`). Traces that are built
  meet what is asked of them there.
* A run of many shots is its shots, one after the other (`whole_state_shots`); a trace
  claims the same however far it is padded (`whole_state_claims`); the range tables of
  additions are looked up nine, eight and one times per sum (`iadd_counts`); and a
  shard is proved alike with columns of its own and with those that all shards share
  (`shard_runs`).
* The modulus is prime (`prime`), and the extension is a field (`extension`).

Outside crates are called behind small functions whose contracts say what is relied
on: field inversion and the transcript's channel of `stwo` (`field`, `transcript`),
`hex` (`hexes`), SHA-256 of `sha2` (`fingerprint`) and the integers of `num-bigint`
(`numbers`).

`tests/` runs the library on small circuits. `app/` is the program: it reads
fixtures, commits to columns, runs the prover and reports. Its modules that need a
prover, a recursion, a device or a circuit simulator are switched on by `--cfg`
flags that `app/main.rs` lists.
