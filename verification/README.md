# gswitch

GPU mode switching for NVIDIA Optimus laptops (integrated, hybrid, NVIDIA,
and VFIO passthrough), with the decisions and the configuration text verified
by Verus.

## Layout

- `src/` — the verified library.
  - `detector.rs`: GPU detection from what sysfs and `/proc` show, whether
    the machine can switch, the current mode, the sleep mode, the recommended
    mode, and the NVIDIA driver's GPU list.
  - `graphics.rs`: the modes, PCI address conversion, the modprobe text, and
    `GpuController` (switching with snapshot and rollback, power, cache).
  - `helper.rs`: `HostState`, the managed part of the host (files, service
    states, GPU cache, queued commands), and the operations on it: cleanup,
    initramfs changes, suspend settings, configuration snapshots.
  - `power.rs`: the runtime power-off protocol (unbind, rebind on failure,
    remove, rescan on failure).
  - `cache.rs`: the GPU cache and its checks.
  - `cli.rs`: the commands and the rules about them.
  - `config.rs`, `error.rs`, and the helpers `text.rs`, `num.rs`, `table.rs`.
- `tests/` — tests of the library.
- `app/` — the `gswitch` program: command-line parsing, reading sysfs and the
  managed files into the library's types, writing back what an operation
  changed, running commands, and the sysfs writes of runtime power control.

The library never touches the system: the program loads a `HostState`, runs
an operation, writes back the differences (`files_to_write`,
`files_to_remove`, `services_to_apply`) and runs the queued commands. When
writing back a switch or rebuilding the initramfs fails, `helper::rollback`
gives the state to write back over what was written: the snapshot that
`GpuController::switch_mode` returned, put back, with the rebuild queued
again. In preview mode nothing is written; the program shows what writing
back `GpuController::preview_switch` (or the operation run on
`HostState::copy_as(false)`) would do.
