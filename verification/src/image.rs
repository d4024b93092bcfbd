pub mod elf;
