use vstd::prelude::*;

verus! {

/// Page can be read.
pub const PROT_READ: isize = 0x1;
/// Page can be written.
pub const PROT_WRITE: isize = 0x2;
/// Page can be executed.
pub const PROT_EXEC: isize = 0x4;
/// Page can not be accessed.
pub const PROT_NONE: isize = 0x0;
/// Extend change to start of growsdown vma (mprotect only).
pub const PROT_GROWSDOWN: isize = 0x01000000;
/// Extend change to start of growsup vma (mprotect only).
pub const PROT_GROWSUP: isize = 0x02000000;

/// Share changes.
pub const MAP_SHARED: isize = 0x01;
/// Changes are private.
pub const MAP_PRIVATE: isize = 0x02;
pub const MAP_ANONYMOUS: isize = 0x20;
/// Interpret addr exactly.
pub const MAP_FIXED: isize = 0x10;

/// map failed, from sys/mman.h, technically ((void *) - 1)
pub const MAP_FAILED: u64 = 0xffff_ffff_ffff_ffff;

} // verus!
