//! One emulation run: the context owns the device and the console log sink
//! for the run's lifetime, and carries the hook policies the execution
//! engine calls into.
//!
//! The engine's hook interface has no channel for returning an error out of
//! instruction execution, so a failed MMIO read is logged by the host and
//! read as zero, and a failed MMIO write is dropped; execution continues
//! either way. An unsupported interrupt is fatal.

use vstd::prelude::*;

use crate::device::Device;
use crate::errors::EmuError;
use crate::peripherals::Peripheral;
use crate::semihost::LogWriter;

verus! {

/// What an MMIO read hook hands the engine: the value, with errors read as
/// zero.
pub open spec fn read_hook_spec(dev: Device, base: u32, offset: u32, size: u32) -> u32 {
    match dev.lookup(base) {
        Some(i) => match dev.peripherals@[i].read_spec(base, offset, size) {
            Ok(v) => v,
            Err(_) => 0,
        },
        None => 0,
    }
}

/// The state of one emulation run.
pub struct Context {
    pub log: LogWriter,
    pub dev: Device,
}

impl Context {
    pub fn new(dev: Device) -> (r: Context)
        ensures
            r.log.buf@ == Seq::<u8>::empty(),
            r.dev.peripherals@ == dev.peripherals@,
            r.dev.mmio_map@ == dev.mmio_map@,
            r.dev.cpu_model == dev.cpu_model,
    {
        Context { log: LogWriter::new(), dev }
    }

    /// The engine's MMIO read hook: route the access; a failure is
    /// substituted with zero so execution continues.
    pub fn handle_mmio_read(&self, base: u32, offset: u32, size: u32) -> (r: u32)
        requires
            self.dev.wf(),
        ensures
            r == read_hook_spec(self.dev, base, offset, size),
    {
        match self.dev.mmio_read(base, offset, size) {
            Ok(v) => v,
            Err(_) => 0,
        }
    }

    /// The engine's MMIO write hook: route the access; a failure is dropped
    /// so execution continues. The write's effect on the addressed
    /// peripheral is that of the bus dispatch.
    pub fn handle_mmio_write(&mut self, base: u32, offset: u32, size: u32, value: u32)
        requires
            old(self).dev.wf(),
        ensures
            final(self).dev.wf(),
            final(self).log == old(self).log,
            final(self).dev.mmio_map@ == old(self).dev.mmio_map@,
            final(self).dev.cpu_model == old(self).dev.cpu_model,
            final(self).dev.peripherals@.len() == old(self).dev.peripherals@.len(),
            match old(self).dev.lookup(base) {
                Some(idx) => {
                    &&& old(self).dev.peripherals@[idx].write_state_rel(
                        final(self).dev.peripherals@[idx],
                        base,
                        offset,
                        size,
                        value,
                    )
                    &&& forall|j: int|
                        0 <= j < old(self).dev.peripherals@.len() && j != idx
                            ==> final(self).dev.peripherals@[j] == #[trigger] old(
                            self,
                        ).dev.peripherals@[j]
                },
                None => final(self).dev.peripherals@ == old(self).dev.peripherals@,
            },
    {
        let outcome = self.dev.mmio_write(base, offset, size, value);
        match outcome {
            Ok(_) => {},
            Err(_) => {},
        }
    }

    /// The engine's invalid-instruction hook decision: stepping halts with
    /// the diagnosis; the process does not crash.
    pub fn handle_invalid_instruction(&self) -> (r: EmuError)
        ensures
            r == EmuError::InvalidInstruction,
    {
        EmuError::InvalidInstruction
    }

    /// The engine's unmapped-memory hook decision: stepping halts with the
    /// diagnosis.
    pub fn handle_mem_unmapped(&self) -> (r: EmuError)
        ensures
            r == EmuError::UnmappedMemoryAccess,
    {
        EmuError::UnmappedMemoryAccess
    }

    /// The engine's interrupt hook decision: only the semihosting software
    /// interrupt is served; any other interrupt number is fatal.
    pub fn check_interrupt(&self, intno: u32) -> (r: Result<(), EmuError>)
        ensures
            r == (if intno == 7 {
                Ok::<(), EmuError>(())
            } else {
                Err::<(), EmuError>(EmuError::UnsupportedInterrupt { intno })
            }),
    {
        if intno == 7 {
            Ok(())
        } else {
            Err(EmuError::UnsupportedInterrupt { intno })
        }
    }
}

} // verus!
