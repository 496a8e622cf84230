# porta

The policy core of a sandbox for AI agents and the commands they run, as a
Verus library: every decision the sandbox makes is a function of plain values
with a contract, proved by Verus.

- `src/` is the verified library: the Linux seccomp filter (with a BPF
  interpreter over which its laws are proved), the Landlock plan, the macOS
  Seatbelt profile, the request checks and explanations, the egress proxy's
  rules, the snapshot comparison, the trace reader behind `--why`, and the
  agent runtime's budgets, tool routing, checks and hash-chained journal.
- `app/` is the ordinary Rust around it: the system calls, processes, files,
  network, WASM engine and serde types, each handing the library plain values
  and acting on what it answers.
- `tests/` runs the library on concrete values.
