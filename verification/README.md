# goish

The logic of a small Go-flavoured runtime, verified with Verus: what the
operating-system layer asks of the kernel and makes of its answers, and the data
structures under the goroutine scheduler.

- `src/` is the library. Functions that need the kernel return the call to make
  and take its answer afterwards, so that every decision is verified and none
  depends on who makes the call.
  - files and processes: `os`, `file`, `fileinfo`, `dir`, `readfile`, `dirfs`,
    `exec_posix`, `user`, with `errors`, `syscall` and `gostr` below them
  - scheduling: `p`, `steal`, `m`, `spin`, `stack`, `grow`, `gobuf`, `sysmon`,
    `netpoll`, `signal`, `preempt`, `flags`, `rand`
  - diagnosis: `segv`, `sample`, `symbolize`, `symtab`, `line`, `macho`,
    `dwarf_util`
  - `value`: reflection on values
- `tests/` runs the library on concrete values.
- `app/` is ordinary Rust around the library: system calls, signal handlers,
  context switches and the monitor's thread.

Properties that span several functions are public proof functions whose names
begin with `law_`, each next to what it is about.
