# dryad

A 64-bit ELF dynamic linker for x86-64 GNU/Linux whose logic is written in
Verus and proved against its contracts.

The linker reads the kernel argument block, relocates itself, loads the
libraries the executable needs (depth first, while their names are added to
the symbol search order breadth first), builds the link map, relocates
every object, prepares each GOT for lazy binding, resolves GNU indirect
functions and, with `LD_BIND_NOW`, binds function symbols at load time.

## Layout

- `src/` is the verified library. It reads everything from byte images of
  memory (`memory::MemImage`) instead of raw pointers, and it does not write
  to memory: relocations come out as a list of stores (`relocate::Fixup`)
  that the caller carries out.
  - `kernel_block`, `auxv`: the kernel argument block, `getenv`, `getauxval`.
  - `binary::elf`: headers, program headers, the `_DYNAMIC` array, string and
    symbol tables, relocation tables, `LinkInfo`, `SharedObject` and symbol
    lookup, `loader`, what loading a library from its file computes, and
    `library`, the loading steps in their order as a state machine: each step
    takes what the caller read, reserved or mapped and says what to do next.
  - `relocate`, `linker`, `runtime`: relocation, the linker's state (working
    set, search order, link map), GOT and PLT relocation, and the lazy
    binding resolver.
  - `utils`: number formatting, C strings, page arithmetic, `mmap` constants.
- `app/` is the unverified shell around it: the `_dryad_init` entry point,
  copying memory into images, `mmap`, opening files, applying the stores and
  printing; it runs the loading steps and the library search as loops that
  do what the library asks.
- `tests/` runs the library on hand-built ELF images and stacks.
