# kernel_task

The task subsystem of a small capability microkernel for RV64, verified with Verus: processes
and threads from their making to their end, the handles and objects they hold, the jobs they
live in, the memory they map, and how they wait, send and share.

Everything that decides or computes stands in `src/` and has a contract. What only the machine
or another part of the kernel can do (funding frames, editing page tables, copying to user
memory, interrupting harts) is done outside; what came of it is an argument of the function that
goes on from there, and what is left to be done is part of its result. Objects are referred to by
identities, and a value that several harts share is passed as one mutable reference: whoever holds
the lock holds the reference.

| Modules | About |
| --- | --- |
| `lifecycle`, `process`, `thread`, `process_drain`, `process_table`, `execution` | the life of a process |
| `launch`, `bootstrap`, `building_calls`, `elf_layout` | filling an address space and bringing up the first process |
| `job`, `ordered_table`, `resources`, `memory_pool`, `ids` | what may exist, and where it is accounted |
| `object`, `signals`, `rights`, `handle`, `handle_close`, `lifetime`, `retirement`, `notify_work`, `request` | kernel objects, their observers and their handles |
| `mailbox`, `delivery`, `notification`, `ipc`, `tunnel`, `tunnel_calls`, `system_reset` | what processes use to talk |
| `address_space`, `backing`, `region`, `map_intent`, `translation`, `space`, `space_drain` | what an address space holds |
| `memory_calls`, `memory_change`, `memory_object`, `running_change`, `shootdown`, `view_permits` | changes to the memory of a running process |
| `unfair` | the scheduler |

Properties that relate several operations are public proof functions beside them, such as
`mailbox` keeping the order of messages or a rolled back reservation leaving no trace.

`app/` holds the shared process table and the loops that serve the queues of a hart.
`tests/` runs the library on concrete values.
