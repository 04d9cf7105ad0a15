# Runprint

A lockfile for runtime behavior.

Runprint observes a command, turns what it did into canonical behavior, and writes a
Git-friendly `behavior.lock`. Later runs are compared with it (`check`), held against it and a
policy (`gate`), or restricted before they start (`enforce`).

## Layout

- `src/` is the verified library. Verus proves the contract of every function, but for the
  few that call outside code (see below).
  - `text`, `path`: strings as sequences of characters, and Unix paths as strings.
  - `strace`: what raw strace output says, and whether an operation really happened.
  - `trace`: the behavior that one syscall line reports.
  - `processes`: the behavior of a whole process tree.
  - `behavior`, `lock`: the vocabulary, its order, locks, counts and differences.
  - `normalize`: symbolic paths and system noise.
  - `json`: the schema of lockfiles and status files, their texts, and the digest.
  - `gate`: patterns, policies and what they refuse.
  - `enforce`: the rights that an enforcement policy grants, and where.
  - `status`: verdicts, exit codes and reports.
- `tests/` holds the tests of the library.
- `app/` is the command line: arguments, files, strace, Landlock.

The public proof functions whose names start with `law_` state what holds across functions:
that the same behavior gives the same lockfile, that project paths do not depend on the
machine, that nothing is recorded which no traced process did, and more.

## What is trusted

`json` calls `serde_json` and `blake3`; `strace` and `text` call two functions of the standard
library that vstd does not cover. What is believed of each of them stands above the item that
makes the call.
