# kernel

The verified core of a small x86-64 hobby kernel, written in Verus.

`src/` holds the kernel's decisions and address arithmetic with their
contracts and proofs:

- `common::x86::memory` — the boot-time frame allocator over the boot loader's
  memory map, page ranges and the walk that maps them page by page, and the
  deep copy of a page-table hierarchy as a state machine;
- `common::x86::{idt, gdt, acpi}` — interrupt vectors, the `int 0x80` gate,
  the keyboard interrupt's use of the scancode decoder (which byte is fed,
  which event is turned into a key, what is printed and acknowledged; the
  decoding itself is `pc-keyboard`'s and is not specified), user-mode
  selectors, and the mapping of ACPI regions;
- `drivers::pci` — configuration-space addressing and the enumeration of all
  PCI functions as a state machine;
- `exec` — ELF loading into a fresh user address space (`exec::elf`), the start
  of a program (`exec::exec`) and the kernel's symbol table (`exec::symbol`);
- `task` — ELF loading into the running address space and system-call decoding;
- `init` — the modules of the ramdisk and the kernel's user window;
- `video::gop` — framebuffer addressing.

Outside crates are called behind trusted wrappers: `x86_64` for addresses and
frames, `elf` for parsing ELF files, `cpio_reader` for the ramdisk archive and
`pc-keyboard` for decoding scancodes.

`app/` is the kernel binary around the library: the boot entry, port and
memory access, page-table writes, interrupt handlers and the jump to user mode.
