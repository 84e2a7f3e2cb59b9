# rustycore

The logic of a small x86_64 kernel, verified with Verus.

`src/` touches no hardware. It takes what was read from registers, clocks and
memory maps, and says what is to be written, mapped, counted or run next:

- `memory`: a bump allocator over the firmware's memory map, a buddy allocator
  with reclaim on top of it, and the plans for mapping the heap and a device
  window.
- `preempt`: the saved frame of a task and the slot table that the timer stub and
  the scheduler share.
- `task`: stacks with a canary and a bootstrap frame, tasks, the scheduler
  contract with two policies (round-robin and fair by weight), and the ledger.
- `apic`, `timer`, `interrupts`, `idt`, `gdt`, `serial`, `syscall`: register and
  port plans, interrupt dispatch, calibration.
- `boot`: the state machines that watch the clocks, promote the APIC timer and
  drive the scheduler demonstration.
- `config`, `xtask`: the configuration file and the build driver.

What the library promises beyond single functions stands in proof functions named
`law_*`, next to the code they are about. Functions marked
`#[verifier::external_body]` call into other crates; their contracts are trusted
and say so.

`app/` is the program around the library: port and register access, page tables,
stack switches in assembly, and the build driver's `main`.
