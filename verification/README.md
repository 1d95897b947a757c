# retrace_box

The verified core of a deterministic record/replay box for AArch64 macOS guests. Everything the
recorder decides is a function of plain values here, with its contract proved by Verus; driving
the hypervisor, reading host files and touching host memory are left to the caller.

- `arch`: the syscall table (argument kinds, descriptor operands, destination buffers), exception
  classes and the AArch64 decoders the box needs.
- `fdtable`, `syscall`: the guest's descriptor table and what a forwarded syscall hands to the
  host kernel and keeps of its answer.
- `aspace`: backings, reservations and placement of guest memory.
- `pagetable`: the W^X identity stage-1 map.
- `cache`, `pager`: routing the shared-cache window and servicing its faults.
- `pac`: the in-guest signing stub's pages and tables.
- `loader`, `layout`: laying out a fresh guest and the fixed geometry.
- `trap`, `debug`: run-loop decisions, emulations and debugger aids.
- `sig`, `deliver`, `thread`: signals, frames and the thread table.
- `excl`: emulating exclusive load/store pairs.
- `state`: checkpoints.

`app/` holds the host-side glue: loading the cache's files and formatting diagnostics.
