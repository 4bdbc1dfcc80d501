# os_kernel

The process management of a small RISC-V kernel, verified with Verus: file descriptors, names and
links, mapped memory, processes and threads, the argument area of a new program, and the refusal
of requests that would deadlock.

- `src/` is the library. Its functions work on plain tables; a system call that needs the machine
  (user memory, the disk, a context switch) returns what is to be done.
  - `fs`, `mm`, `trap`: files and names, address spaces, trap contexts
  - `task`: processes, threads, their numbers, `fork` and `exec`, the banker's algorithm
  - `syscall`: the system calls
  - `laws`: what holds between them
  - `assoc`: lists of keys and values as maps, for the tables of names and of processes
- `app/` carries out what the library decides, on a `Machine`.
- `tests/` runs the library on concrete values.
