# GLM OS

A small operating system kernel for x86_64, verified with Verus: page tables
with copy-on-write fork, a frame allocator and a heap, preemptive scheduling,
ring-3 processes with signals, threads and `exec`, byte channels, a FAT32 file
system over AHCI, an IP stack with UDP and TCP, a text console, a windowed
desktop and a shell.

* `src/` is the verified library. It holds no hardware access: what a device
  reports comes in as an argument, and what it is to do goes out as a list of
  register writes or as the next step of a small machine. State that processors
  share is held in structs that the caller passes in under its lock.
* `app/` is the part that touches the machine: port I/O, device memory, the
  boot protocol, interrupt entry, and the loops that drive the library.
* `tests/` runs the library on concrete values.

| module | what it is |
| --- | --- |
| `mem` | frames, heap, page tables, shootdowns |
| `sched`, `user` | tasks, processes, signals, programs, system calls |
| `ipc`, `ring` | byte channels |
| `disk`, `fs` | AHCI, FAT32, open files |
| `net` | e1000, ARP, IPv4, ICMP, UDP, TCP |
| `console`, `gui`, `pixels`, `term` | screen, desktop, terminals |
| `shell`, `boot` | commands and the boot log |
| `cpu`, `io` | keyboard, mouse, timers, segment tables, processors, serial line |
| `text`, `words`, `bytes`, `seqs`, `sync` | what the rest is built from |

Laws that relate several functions are public proof functions whose names
start with `law_`.
