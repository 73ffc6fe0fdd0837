# enlil-core

The core of a hypervisor on KVM: guest memory, second-level page tables, CPUID
policy, boot protocols, the devices of a standard PC and the decisions of the
vCPU run loop.

- `src/` is the library. It computes on plain values, and Verus proves it: every
  function meets its contract, nothing overflows or panics, and the laws that
  relate several functions (`law_...`) hold.
- `app/` carries out what the library decides: it opens `/dev/kvm`, enters
  vCPUs, pins threads and reads files. The device models are handed to it
  through a trait.
- `tests/` runs the library on concrete values.

## Where to find what

| Module | What it decides |
| --- | --- |
| `memory`, `ept`, `guest_ram` | host memory of guests, page tables, RAM by guest address |
| `cpuid`, `kvm_cpuid`, `msr` | what a guest reads of its processor |
| `vcpu_regs`, `bzimage`, `orchestrator` | how a guest is booted and resumed |
| `kvm_backend`, `run_loop`, `exit_handler` | what happens at an exit, and when a run ends |
| `device_bus`, `standard_pc`, `acpi` | shadow registers, events, interrupt lines, devices, tables |
| `affinity` | threads on cores |
| `bits`, `bytes`, `text`, `error` | what the others are built from |

What is trusted rather than proved is marked `external_body` and says in its doc
comment what it claims: the two collections that KVM's calls take (`CpuidSet`,
`MsrSet`) and the address of a buffer.
