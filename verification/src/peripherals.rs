//! The peripheral contract and the generic peripherals.
//!
//! A peripheral declares the memory regions it occupies. An `Mmio` region is
//! dispatched through `mmio_read` / `mmio_write`; a `Direct` region is plain
//! memory backed by a buffer the peripheral owns, and accesses to it bypass
//! the peripheral entirely.

use vstd::prelude::*;

use crate::errors::EmuError;
use crate::regs::{
    read_result, write_outcome, write_state, RegisterBank, RegisterEntry, ReadPolicy, WritePolicy,
};

verus! {

/// The three independent access rights of a direct-mapped region.
#[derive(Clone, Copy, Debug, PartialEq, Eq, Structural)]
pub struct Permissions {
    pub r: bool,
    pub w: bool,
    pub x: bool,
}

/// One memory region a peripheral occupies. Its size is never zero.
#[derive(Clone, Copy, Debug, PartialEq, Eq, Structural)]
pub enum MemoryMapping {
    /// A region whose accesses are routed to the owning peripheral.
    Mmio { base: u32, size: u32 },
    /// A region backed by a buffer of the owning peripheral; the dispatcher
    /// only hands its location on to the execution engine.
    Direct { base: u32, size: u32, perms: Permissions },
}

/// A unit on the bus: it names itself, declares its regions, and serves the
/// accesses to its `Mmio` regions.
pub trait Peripheral: Sized {
    /// The internal well-formedness of the peripheral.
    spec fn inv(&self) -> bool;

    /// The name the peripheral reports.
    spec fn name_spec(&self) -> &'static str;

    /// The regions this peripheral occupies.
    spec fn mappings_spec(&self) -> Seq<MemoryMapping>;

    /// What an MMIO read returns.
    spec fn read_spec(&self, base: u32, offset: u32, size: u32) -> Result<u32, EmuError>;

    /// What an MMIO write returns.
    spec fn write_outcome_spec(&self, base: u32, offset: u32, size: u32, value: u32) -> Result<
        (),
        EmuError,
    >;

    /// How the peripheral state after an MMIO write relates to the state
    /// before it.
    spec fn write_state_rel(self, post: Self, base: u32, offset: u32, size: u32, value: u32) -> bool;

    fn name(&self) -> (r: &'static str)
        ensures
            r == self.name_spec(),
    ;

    fn mappings(&self) -> (r: Vec<MemoryMapping>)
        requires
            self.inv(),
        ensures
            r@ == self.mappings_spec(),
    ;

    fn mmio_read(&self, base: u32, offset: u32, size: u32) -> (r: Result<u32, EmuError>)
        requires
            self.inv(),
        ensures
            r == self.read_spec(base, offset, size),
    ;

    fn mmio_write(&mut self, base: u32, offset: u32, size: u32, value: u32) -> (r: Result<
        (),
        EmuError,
    >)
        requires
            old(self).inv(),
        ensures
            final(self).inv(),
            r == old(self).write_outcome_spec(base, offset, size, value),
            old(self).write_state_rel(*final(self), base, offset, size, value),
    ;
}

/// A vector of `n` copies of `b`.
pub fn filled(n: usize, b: u8) -> (r: Vec<u8>)
    ensures
        r@ == Seq::new(n as nat, |i: int| b),
{
    let mut v: Vec<u8> = Vec::new();
    let mut i: usize = 0;
    while i < n
        invariant
            0 <= i <= n,
            v@ =~= Seq::new(i as nat, |j: int| b),
        decreases n - i,
    {
        v.push(b);
        i = i + 1;
    }
    proof {
        assert(v@ =~= Seq::new(n as nat, |i: int| b));
    }
    v
}

/// The System Control Space register block of the Cortex-M0+ model: a 4 KiB
/// MMIO region at `0xE000_E000` holding the VTOR register at offset `0xD08`.
pub struct SCS {
    pub bank: RegisterBank,
}

/// Byte offset of the vector table offset register inside the SCS.
pub const VTOR_OFFSET: u32 = 0xd08;

/// Base address of the System Control Space.
pub const SCS_BASE: u32 = 0xe000_e000;

impl SCS {
    pub fn new() -> (r: SCS)
        ensures
            r.inv(),
            r.bank.entries@.len() == 1,
            r.bank.entries@[0].offset == VTOR_OFFSET,
            r.bank.entries@[0].value == 0,
            r.bank.entries@[0].read_policy == ReadPolicy::Stored,
            r.bank.entries@[0].write_policy == WritePolicy::Store,
    {
        let mut entries: Vec<RegisterEntry> = Vec::new();
        entries.push(
            RegisterEntry {
                name: "vtor",
                offset: VTOR_OFFSET,
                reset_value: 0,
                read_policy: ReadPolicy::Stored,
                write_policy: WritePolicy::Store,
                value: 0,
            },
        );
        let bank = RegisterBank::new("SCS", entries);
        SCS { bank }
    }
}

impl Peripheral for SCS {
    open spec fn inv(&self) -> bool {
        self.bank.wf()
    }

    open spec fn name_spec(&self) -> &'static str {
        "SCS"
    }

    open spec fn mappings_spec(&self) -> Seq<MemoryMapping> {
        seq![MemoryMapping::Mmio { base: SCS_BASE, size: 4096 }]
    }

    open spec fn read_spec(&self, base: u32, offset: u32, size: u32) -> Result<u32, EmuError> {
        read_result(self.bank.entries@, base, offset, size)
    }

    open spec fn write_outcome_spec(&self, base: u32, offset: u32, size: u32, value: u32) -> Result<
        (),
        EmuError,
    > {
        match write_outcome(self.bank.entries@, base, offset, size) {
            Ok(_) => Ok(()),
            Err(e) => Err(e),
        }
    }

    open spec fn write_state_rel(self, post: SCS, base: u32, offset: u32, size: u32, value: u32) -> bool {
        &&& post.bank.name == self.bank.name
        &&& post.bank.entries@ == write_state(self.bank.entries@, offset, size, value)
    }

    fn name(&self) -> (r: &'static str) {
        "SCS"
    }

    fn mappings(&self) -> (r: Vec<MemoryMapping>) {
        let mut v: Vec<MemoryMapping> = Vec::new();
        v.push(MemoryMapping::Mmio { base: SCS_BASE, size: 4096 });
        proof {
            assert(v@ =~= self.mappings_spec());
        }
        v
    }

    fn mmio_read(&self, base: u32, offset: u32, size: u32) -> (r: Result<u32, EmuError>) {
        self.bank.read(base, offset, size)
    }

    fn mmio_write(&mut self, base: u32, offset: u32, size: u32, value: u32) -> (r: Result<
        (),
        EmuError,
    >) {
        match self.bank.write(base, offset, size, value) {
            Ok(_) => Ok(()),
            Err(e) => Err(e),
        }
    }
}

/// Plain volatile memory: one direct-mapped, fully accessible region whose
/// buffer starts zeroed.
pub struct Sram {
    pub region_name: &'static str,
    pub base: u32,
    pub data: Vec<u8>,
}

impl Sram {
    pub fn new(base: u32, size: u32, name: Option<&'static str>) -> (r: Sram)
        requires
            size > 0,
        ensures
            r.inv(),
            r.base == base,
            r.data@ == Seq::new(size as nat, |i: int| 0u8),
            r.region_name == (match name {
                Some(n) => n,
                None => "SRAM",
            }),
    {
        let region_name = match name {
            Some(n) => n,
            None => "SRAM",
        };
        let data = filled(size as usize, 0);
        Sram { region_name, base, data }
    }
}

impl Peripheral for Sram {
    open spec fn inv(&self) -> bool {
        0 < self.data@.len() <= u32::MAX
    }

    open spec fn name_spec(&self) -> &'static str {
        self.region_name
    }

    open spec fn mappings_spec(&self) -> Seq<MemoryMapping> {
        seq![
            MemoryMapping::Direct {
                base: self.base,
                size: self.data@.len() as u32,
                perms: Permissions { r: true, w: true, x: true },
            },
        ]
    }

    open spec fn read_spec(&self, base: u32, offset: u32, size: u32) -> Result<u32, EmuError> {
        Err(EmuError::NoPeripheralAtAddress { base })
    }

    open spec fn write_outcome_spec(&self, base: u32, offset: u32, size: u32, value: u32) -> Result<
        (),
        EmuError,
    > {
        Err(EmuError::NoPeripheralAtAddress { base })
    }

    open spec fn write_state_rel(self, post: Sram, base: u32, offset: u32, size: u32, value: u32) -> bool {
        &&& post.region_name == self.region_name
        &&& post.base == self.base
        &&& post.data@ == self.data@
    }

    fn name(&self) -> (r: &'static str) {
        self.region_name
    }

    fn mappings(&self) -> (r: Vec<MemoryMapping>) {
        let mut v: Vec<MemoryMapping> = Vec::new();
        v.push(
            MemoryMapping::Direct {
                base: self.base,
                size: self.data.len() as u32,
                perms: Permissions { r: true, w: true, x: true },
            },
        );
        proof {
            assert(v@ =~= self.mappings_spec());
        }
        v
    }

    /// Raw accesses to a direct region bypass the peripheral; this peripheral
    /// registers no MMIO region, so the dispatcher never routes here.
    fn mmio_read(&self, base: u32, offset: u32, size: u32) -> (r: Result<u32, EmuError>) {
        Err(EmuError::NoPeripheralAtAddress { base })
    }

    fn mmio_write(&mut self, base: u32, offset: u32, size: u32, value: u32) -> (r: Result<
        (),
        EmuError,
    >) {
        Err(EmuError::NoPeripheralAtAddress { base })
    }
}

} // verus!
