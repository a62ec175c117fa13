//! The ARM semihosting handler: a finite dispatch on the call number in R0,
//! with the argument block pointed to by R1.
//!
//! The driving loop reads registers and guest memory from the execution
//! engine and hands the fetched values to the decision functions here; the
//! console output goes to the session's log sink.

use vstd::prelude::*;

use crate::errors::EmuError;

verus! {

/// Semihosting call number: open a host file.
pub const SYS_OPEN: u32 = 0x01;

/// Semihosting call number: write to a host file.
pub const SYS_WRITE: u32 = 0x05;

/// Semihosting call number: report an exception to the debug monitor.
pub const ANGEL_REPORT_EXCEPTION: u32 = 0x18;

/// Exception reason: the application exited with an error.
pub const ADP_STOPPED_RUNTIME_ERROR_UNKNOWN: u32 = 0x20023;

/// Exception reason: the application exited cleanly.
pub const ADP_STOPPED_APPLICATION_EXIT: u32 = 0x20026;

/// The magic descriptor handed out for the console pseudo-file `:tt`.
pub const FILENO_STDIO_MAGIC: u32 = 0x1234;

/// The descriptor returned for every other open request.
pub const FILENO_INVALID: u32 = 0xffff_ffff;

/// The console log sink owned by the session: everything the guest writes
/// to the console descriptor, in order.
pub struct LogWriter {
    pub buf: Vec<u8>,
}

impl LogWriter {
    pub fn new() -> (r: LogWriter)
        ensures
            r.buf@ == Seq::<u8>::empty(),
    {
        LogWriter { buf: Vec::new() }
    }

    /// Append `data` verbatim to the sink.
    pub fn write(&mut self, data: &[u8])
        ensures
            final(self).buf@ == old(self).buf@ + data@,
    {
        let n = data.len();
        let mut i: usize = 0;
        while i < n
            invariant
                n == data@.len(),
                0 <= i <= n,
                self.buf@ == old(self).buf@ + data@.subrange(0, i as int),
            decreases n - i,
        {
            self.buf.push(data[i]);
            proof {
                assert(old(self).buf@ + data@.subrange(0, i as int) + seq![data@[i as int]]
                    =~= old(self).buf@ + data@.subrange(0, i + 1));
            }
            i = i + 1;
        }
        proof {
            assert(data@.subrange(0, n as int) =~= data@);
        }
    }

    /// Everything written so far.
    pub fn contents(&self) -> (r: &Vec<u8>)
        ensures
            r@ == self.buf@,
    {
        &self.buf
    }

    pub fn flush(&self) {
    }
}

/// Whether a byte sequence is valid UTF-8.
pub uninterp spec fn is_utf8(b: Seq<u8>) -> bool;

/// Relies on core::str::from_utf8: it returns Ok exactly when the bytes are
/// valid UTF-8, and all-ASCII input (every byte below 0x80) is always valid.
#[verifier::external_body]
pub(crate) fn utf8_ok(b: &[u8]) -> (r: bool)
    ensures
        r == is_utf8(b@),
        (forall|i: int| 0 <= i < b@.len() ==> b@[i] < 0x80) ==> r,
{
    core::str::from_utf8(b).is_ok()
}

/// The bytes of the console pseudo-file name `:tt`.
pub open spec fn tt_name() -> Seq<u8> {
    seq![0x3au8, 0x74u8, 0x74u8]
}

/// `SYS_OPEN`: the file name bytes were fetched from guest memory; a name
/// that is not UTF-8 is rejected, the console name `:tt` yields the magic
/// console descriptor, and every other name yields the invalid descriptor.
/// The result goes back to the guest in R0.
pub fn sys_open(fname: &[u8]) -> (r: Result<u32, EmuError>)
    ensures
        r == (if !is_utf8(fname@) {
            Err::<u32, EmuError>(EmuError::InvalidUtf8)
        } else if fname@ == tt_name() {
            Ok::<u32, EmuError>(FILENO_STDIO_MAGIC)
        } else {
            Ok::<u32, EmuError>(FILENO_INVALID)
        }),
{
    if !utf8_ok(fname) {
        return Err(EmuError::InvalidUtf8);
    }
    if fname.len() == 3 && fname[0] == 0x3a && fname[1] == 0x74 && fname[2] == 0x74 {
        proof {
            assert(fname@ =~= tt_name());
        }
        Ok(FILENO_STDIO_MAGIC)
    } else {
        proof {
            assert(fname@ != tt_name());
        }
        Ok(FILENO_INVALID)
    }
}

/// `SYS_WRITE`: a write to the console descriptor forwards the fetched
/// payload verbatim to the log sink and reports 0 bytes left unwritten; a
/// write to any other descriptor is swallowed whole, reporting `dlen`. The
/// result goes back to the guest in R0; `data` holds the payload only for
/// the console descriptor (the handler does not fetch it otherwise).
pub fn sys_write(fd: u32, dlen: u32, data: &[u8], log: &mut LogWriter) -> (r: u32)
    requires
        fd == FILENO_STDIO_MAGIC ==> data@.len() == dlen,
    ensures
        fd == FILENO_STDIO_MAGIC ==> r == 0 && final(log).buf@ == old(log).buf@ + data@,
        fd != FILENO_STDIO_MAGIC ==> r == dlen && final(log).buf@ == old(log).buf@,
{
    if fd == FILENO_STDIO_MAGIC {
        log.write(data);
        0
    } else {
        dlen
    }
}

/// What the guest asked the session to do.
#[derive(Clone, Copy, Debug, PartialEq, Eq, Structural)]
pub enum StopAction {
    /// Stop the run and report success.
    Exit,
    /// Stop the run and report failure.
    Fail,
}

/// `ANGEL_REPORT_EXCEPTION`: the reason in R1 either stops the session
/// (cleanly or reporting failure) or is an unsupported exception.
pub fn angel_report_exception(r1: u32) -> (r: Result<StopAction, EmuError>)
    ensures
        r == (if r1 == ADP_STOPPED_APPLICATION_EXIT {
            Ok::<StopAction, EmuError>(StopAction::Exit)
        } else if r1 == ADP_STOPPED_RUNTIME_ERROR_UNKNOWN {
            Ok::<StopAction, EmuError>(StopAction::Fail)
        } else {
            Err::<StopAction, EmuError>(EmuError::UnsupportedException { reason: r1 })
        }),
{
    if r1 == ADP_STOPPED_APPLICATION_EXIT {
        Ok(StopAction::Exit)
    } else if r1 == ADP_STOPPED_RUNTIME_ERROR_UNKNOWN {
        Ok(StopAction::Fail)
    } else {
        Err(EmuError::UnsupportedException { reason: r1 })
    }
}

/// The semihosting calls this handler serves.
#[derive(Clone, Copy, Debug, PartialEq, Eq, Structural)]
pub enum SemiCall {
    Open,
    Write,
    ReportException,
}

/// Dispatch on the call number in R0; anything but the three known calls is
/// an unsupported-call error.
pub fn decode_call(r0: u32) -> (r: Result<SemiCall, EmuError>)
    ensures
        r == (if r0 == SYS_OPEN {
            Ok::<SemiCall, EmuError>(SemiCall::Open)
        } else if r0 == SYS_WRITE {
            Ok::<SemiCall, EmuError>(SemiCall::Write)
        } else if r0 == ANGEL_REPORT_EXCEPTION {
            Ok::<SemiCall, EmuError>(SemiCall::ReportException)
        } else {
            Err::<SemiCall, EmuError>(EmuError::UnsupportedSemihostingCall { call: r0 })
        }),
{
    if r0 == SYS_OPEN {
        Ok(SemiCall::Open)
    } else if r0 == SYS_WRITE {
        Ok(SemiCall::Write)
    } else if r0 == ANGEL_REPORT_EXCEPTION {
        Ok(SemiCall::ReportException)
    } else {
        Err(EmuError::UnsupportedSemihostingCall { call: r0 })
    }
}

/// How far the program counter must advance to step over the instruction
/// `ins` sits at: Thumb encodings whose top five bits exceed `0x1C` are the
/// first half of a 32-bit instruction.
pub open spec fn thumb_step_spec(ins: u16) -> u32 {
    if ins >> 11 > 0x1c {
        4
    } else {
        2
    }
}

/// The PC step over the instruction halfword `ins`, applied after every
/// semihosting call, failed or not, so the guest does not re-trap.
pub fn thumb_step(ins: u16) -> (r: u32)
    ensures
        r == thumb_step_spec(ins),
{
    if ins >> 11 > 0x1c {
        4
    } else {
        2
    }
}

/// A program counter value with the Thumb bit cleared, as read from R15.
pub fn pc_address(raw_pc: u32) -> (r: u32)
    ensures
        r == raw_pc & 0xffff_fffe,
{
    raw_pc & 0xffff_fffe
}

/// A program counter value with the Thumb bit set, as written back to R15.
pub fn pc_thumb(address: u32) -> (r: u32)
    ensures
        r == address | 1,
{
    address | 1
}

} // verus!
