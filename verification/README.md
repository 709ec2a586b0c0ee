# axvm

The decisions a hypervisor makes for its virtual machines, written in Verus
with their contracts proved.

- `src/config.rs`, `src/addr.rs`: machine configuration and address types.
- `src/cpu.rs`, `src/percpu.rs`: host CPU allocation (a bitmap of free CPUs)
  and per-CPU data.
- `src/fdt/`: the device tree as a depth-first walk of nodes: paths,
  phandles, the devices handed through to a guest, the guest's tree built
  from the host's, and a path-keyed tree written back as writer calls.
- `src/timer.rs`: the timer queue, deadlines and tokens in a
  `timer_list::TimerList`.
- `src/vm/`: the machine's lifecycle, its vCPUs, paging limits, the guest
  address space, device regions, exits and the command mailbox of its
  worker.
- `app/`: reading and writing device tree blobs, running the timers'
  closures against the clock, and aligned buffers, which stay outside the verified library.
- `tests/`: tests of the library on concrete values.
