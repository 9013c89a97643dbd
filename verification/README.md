# xnu_rs

The logic of a small Darwin-compatible kernel for AArch64, with its boot loader
and build tasks, written in Verus: every function of the library has a contract,
and Verus proves it. What Verus believes without proof are the contracts of a few
small functions that call `object`, `goblin` and `lz4_flex`, and of two functions
of the standard library, `core::str::from_utf8` and `String::push`. Each says in
its comment what it claims of the function that it calls.

- `src/zs` – a store of LZ4-compressed objects in fixed-size slots
- `src/loader` – Mach-O and FAT files: segments, load commands, chained fixups
- `src/boot` – the boot loader: kernel image, page plan, device trees
- `src/kernel` – system calls, ports and messages, page tables, frames, heap,
  threads, the root file system, virtio and interrupt controller protocols
- `src/xtask` – root file system images, ELF to Mach-O conversion, command lines
- `app` – what touches the machine: files, processes, UEFI, registers, assembly

Physical memory is a range of bytes (`mem::PhysMem`). Code that reads or writes
it says in its contract which bytes it changes and when it stops because an
address lies outside. Devices and the disk are driven from `app`: the library
says what to do next, takes what came back, and goes on.

Laws that hold across functions are public proof functions named `law_..`, next
to what they are about.
