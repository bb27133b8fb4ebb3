# moa-submitter

The command line tool that submits kernels to the MOA 2026 kernel optimization competition,
with its logic verified by [Verus](https://github.com/verus-lang/verus).

| | |
| --- | --- |
| `src/` | the library: what the tool decides and computes, with its contracts and their proofs |
| `app/` | the program around it: arguments, environment, disk, network, clock, terminal |
| `tests/` | tests that run the library on concrete values |

Each public function states in its `ensures` what it returns, over the texts, sequences and
numbers that its arguments hold. What holds of several functions together is a proof function
whose name begins with `law_`.

Two outside functions are believed rather than proved: reading a message out of a JSON answer
with `serde_json`, and writing bytes in base64 with `base64`. A third is the standard library's
`String::push`. What is claimed of each stands above its declaration.

## Use

```sh
moa-submitter login              # once; the token lasts 30 days
moa-submitter submit             # from anywhere inside your clone of the baseline
moa-submitter status
```

| Command | |
| --- | --- |
| `moa-submitter status` | your 20 most recent submissions |
| `moa-submitter status -n 50` | the 50 most recent instead |
| `moa-submitter status --all` | every submission you have made |
| `moa-submitter status <ID>` | per-kernel cycles, score, and why it failed |
| `moa-submitter log <ID>` | that submission's log, split by stage |

A submission is `src/ops.rs` and everything under `src/device/`. Symbolic links there are skipped,
and `src/device` itself must not be one.
