# hurricane

The verified core of a small RISC-V teaching kernel with an asynchronous
runtime, its user library and its build helper.

- `src/` is the library, written in Verus: every function carries a
  contract and is proved against it.
  - `lfu_cache`, `block_cache`: the least-frequently-used block cache of the
    asynchronous file system, with its eviction and write-back rules.
  - `async_mutex`: the lock word protocol of the asynchronous mutex.
  - `hart`, `memory`: per-hart bookkeeping (address space numbers, user
    address spaces) and the address layout.
  - `safe_cell`: nested interrupt masking.
  - `net`: TCP connection state and byte stream, UDP and Unix socket state,
    message and accept queues, socket addresses.
  - `syscall`, `kernel_syscall`: building user system call requests and
    decoding kernel system calls.
  - `fib`, `mod_mgmt`: a step-wise Fibonacci computation and kernel module
    descriptors.
  - `fs_node`: joining file system paths.
- `app/` is the plain Rust around it: registers, `ecall`, locks, wakers,
  async device I/O and the `xtask` command line.
- `tests/` exercises the library on concrete values.
