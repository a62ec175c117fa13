//! The error taxonomy of the emulation fabric.
//!
//! `UnsupportedInterrupt`, `InvalidInstruction` and `UnmappedMemoryAccess`
//! are fatal: they halt stepping. The loader errors abort a load before
//! execution starts. The remaining kinds are recoverable: the bus dispatcher
//! logs them and substitutes a default so that execution continues.

use vstd::prelude::*;

verus! {

#[derive(Clone, Copy, Debug, PartialEq, Eq, Structural)]
pub enum EmuError {
    /// An MMIO access to a base address with no registered peripheral.
    NoPeripheralAtAddress { base: u32 },
    /// A register access to an offset with no declared register.
    NoRegisterAtOffset { base: u32, offset: u32 },
    /// A register access that is not a 4-byte access on a 4-byte boundary.
    UnalignedAccess,
    /// A guest string that is not valid UTF-8.
    InvalidUtf8,
    /// A semihosting call number this handler does not implement.
    UnsupportedSemihostingCall { call: u32 },
    /// An exception reason this handler does not recognize.
    UnsupportedException { reason: u32 },
    /// An interrupt number with no handler; fatal.
    UnsupportedInterrupt { intno: u32 },
    /// The guest hit an instruction the CPU cannot decode; halts stepping.
    InvalidInstruction,
    /// The guest accessed memory outside every mapped region; halts stepping.
    UnmappedMemoryAccess,
    /// An ELF image whose bytes do not form a loadable 32-bit file.
    MalformedElf,
    /// An Intel HEX text whose bytes do not form well-formed records.
    MalformedIntelHex,
}

} // verus!
