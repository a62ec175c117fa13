//! The MSPM0 hardware layer, as decisions: the flash-controller command
//! sequences, the LED blink patterns, and the word-programming state
//! machine. Each function turns state and fetched register values into the
//! exact register operations to perform; performing them (and the busy-wait
//! after an execute) is the hardware side's job.

use vstd::prelude::*;

use crate::bytes::is_aligned;
use crate::nanoboot::{NanoReason, NanoResult};

verus! {

/// Flash page (sector) size of this device family, in bytes.
pub const FLASH_PAGE_SZ: u32 = 1024;

/// Byte address of the bootloader data page in flash.
pub const BL_DATA_START: u32 = 3 * 1024;

/// The flash controller commands the bootloader issues.
#[derive(Clone, Copy, Debug, PartialEq, Eq, Structural)]
pub enum FlashCmd {
    BlankVerify,
    Program,
    Erase,
}

/// The operand size of a flash controller command.
#[derive(Clone, Copy, Debug, PartialEq, Eq, Structural)]
pub enum FlashOpSize {
    OneWord,
    Sector,
}

/// One register operation on the flash controller. `Execute` also stands
/// for the busy-wait until the controller reports the command done.
#[derive(Clone, Copy, Debug, PartialEq, Eq, Structural)]
pub enum FlashOp {
    SetCommand { command: FlashCmd, size: FlashOpSize },
    SetAddress(u32),
    SetData { index: usize, value: u32 },
    SetProtectMask(u32),
    Execute,
}

/// The errors this hardware layer reports.
#[derive(Clone, Copy, Debug, PartialEq, Eq, Structural)]
pub enum HalErr {
    Panic,
    NotImplemented,
    FlashError,
}

impl HalErr {
    /// The numeric code carried inside `NanoReason::HalError`.
    pub open spec fn code_spec(self) -> u16 {
        match self {
            HalErr::Panic => 0,
            HalErr::NotImplemented => 1,
            HalErr::FlashError => 2,
        }
    }

    pub fn code(&self) -> (r: u16)
        ensures
            r == self.code_spec(),
    {
        match self {
            HalErr::Panic => 0,
            HalErr::NotImplemented => 1,
            HalErr::FlashError => 2,
        }
    }
}

impl From<HalErr> for NanoReason {
    fn from(item: HalErr) -> (r: NanoReason) {
        NanoReason::HalError(item.code())
    }
}

impl vstd::std_specs::convert::FromSpecImpl<HalErr> for NanoReason {
    open spec fn obeys_from_spec() -> bool {
        true
    }

    open spec fn from_spec(item: HalErr) -> NanoReason {
        NanoReason::HalError(item.code_spec())
    }
}

/// Interpret the status register after a command: `cmdpass` set means the
/// command passed; anything else is a flash error.
pub fn pass_check(cmdpass: bool) -> (r: NanoResult)
    ensures
        r == (if cmdpass {
            Ok::<(), NanoReason>(())
        } else {
            Err::<(), NanoReason>(NanoReason::HalError(2))
        }),
{
    if cmdpass {
        Ok(())
    } else {
        Err(NanoReason::from(HalErr::FlashError))
    }
}

/// The write-protection mask that exposes only the sector holding `addr`.
pub fn unprotect_sector(addr: u32) -> (r: FlashOp)
    requires
        addr < 32 * FLASH_PAGE_SZ,
    ensures
        r == FlashOp::SetProtectMask(!(1u32 << (addr / FLASH_PAGE_SZ))),
{
    let sector = addr / FLASH_PAGE_SZ;
    FlashOp::SetProtectMask(!(1u32 << sector))
}

/// The operations of a blank-verify of the 64-bit word at `addr`.
pub fn blank_verify(addr: u32) -> (r: Vec<FlashOp>)
    ensures
        r@ == seq![
            FlashOp::SetCommand { command: FlashCmd::BlankVerify, size: FlashOpSize::OneWord },
            FlashOp::SetAddress(addr),
            FlashOp::Execute,
        ],
{
    let mut v: Vec<FlashOp> = Vec::new();
    v.push(FlashOp::SetCommand { command: FlashCmd::BlankVerify, size: FlashOpSize::OneWord });
    v.push(FlashOp::SetAddress(addr));
    v.push(FlashOp::Execute);
    proof {
        assert(v@ =~= seq![
            FlashOp::SetCommand { command: FlashCmd::BlankVerify, size: FlashOpSize::OneWord },
            FlashOp::SetAddress(addr),
            FlashOp::Execute,
        ]);
    }
    v
}

/// Interpret the status register after a blank-verify: on a passed command,
/// the word is blank exactly when `failverify` is clear.
pub fn blank_verify_result(cmdpass: bool, failverify: bool) -> (r: NanoResult<bool>)
    ensures
        r == (if cmdpass {
            Ok::<bool, NanoReason>(!failverify)
        } else {
            Err::<bool, NanoReason>(NanoReason::HalError(2))
        }),
{
    if cmdpass {
        Ok(!failverify)
    } else {
        Err(NanoReason::from(HalErr::FlashError))
    }
}

/// The operations that program the 64-bit `value` at `addr`: command, target
/// address, the two data words, unprotecting the target sector, execute.
pub fn write_word(addr: u32, value: u64) -> (r: Vec<FlashOp>)
    requires
        addr < 32 * FLASH_PAGE_SZ,
    ensures
        r@ == seq![
            FlashOp::SetCommand { command: FlashCmd::Program, size: FlashOpSize::OneWord },
            FlashOp::SetAddress(addr),
            FlashOp::SetData { index: 0, value: value as u32 },
            FlashOp::SetData { index: 1, value: (value >> 32) as u32 },
            FlashOp::SetProtectMask(!(1u32 << (addr / FLASH_PAGE_SZ))),
            FlashOp::Execute,
        ],
{
    let lo = value as u32;
    let hi = (value >> 32) as u32;
    let mut v: Vec<FlashOp> = Vec::new();
    v.push(FlashOp::SetCommand { command: FlashCmd::Program, size: FlashOpSize::OneWord });
    v.push(FlashOp::SetAddress(addr));
    v.push(FlashOp::SetData { index: 0, value: lo });
    v.push(FlashOp::SetData { index: 1, value: hi });
    let m = unprotect_sector(addr);
    v.push(m);
    v.push(FlashOp::Execute);
    proof {
        assert(v@ =~= seq![
            FlashOp::SetCommand { command: FlashCmd::Program, size: FlashOpSize::OneWord },
            FlashOp::SetAddress(addr),
            FlashOp::SetData { index: 0, value: value as u32 },
            FlashOp::SetData { index: 1, value: (value >> 32) as u32 },
            FlashOp::SetProtectMask(!(1u32 << (addr / FLASH_PAGE_SZ))),
            FlashOp::Execute,
        ]);
    }
    v
}

/// The operations that erase the sector holding `addr`.
pub fn erase_page(addr: u32) -> (r: Vec<FlashOp>)
    requires
        addr < 32 * FLASH_PAGE_SZ,
    ensures
        r@ == seq![
            FlashOp::SetCommand { command: FlashCmd::Erase, size: FlashOpSize::Sector },
            FlashOp::SetAddress(addr),
            FlashOp::SetProtectMask(!(1u32 << (addr / FLASH_PAGE_SZ))),
            FlashOp::Execute,
        ],
{
    let mut v: Vec<FlashOp> = Vec::new();
    v.push(FlashOp::SetCommand { command: FlashCmd::Erase, size: FlashOpSize::Sector });
    v.push(FlashOp::SetAddress(addr));
    let m = unprotect_sector(addr);
    v.push(m);
    v.push(FlashOp::Execute);
    proof {
        assert(v@ =~= seq![
            FlashOp::SetCommand { command: FlashCmd::Erase, size: FlashOpSize::Sector },
            FlashOp::SetAddress(addr),
            FlashOp::SetProtectMask(!(1u32 << (addr / FLASH_PAGE_SZ))),
            FlashOp::Execute,
        ]);
    }
    v
}

/// Board description: where the status LED sits, if the board has one.
pub struct LedSettings {
    pub gpio: usize,
    pub tu_cycles: u32,
}

/// What a board contributes to the bootloader.
pub trait NanoBoard {
    /// The status LED, if any.
    fn led() -> (r: Option<LedSettings>);
}

/// One step of a blink pattern: drive the LED GPIO, or wait a number of
/// time units (each `tu_cycles` processor cycles long).
#[derive(Clone, Copy, Debug, PartialEq, Eq, Structural)]
pub enum BlinkStep {
    /// Clear the GPIO output (LED on, active low).
    GpioClear(usize),
    /// Set the GPIO output (LED off).
    GpioSet(usize),
    /// Wait this many time units.
    Delay(u32),
}

/// One LED pulse: on, wait, off, wait.
pub open spec fn led_steps(pin: usize, units: u32) -> Seq<BlinkStep> {
    seq![
        BlinkStep::GpioClear(pin),
        BlinkStep::Delay(units),
        BlinkStep::GpioSet(pin),
        BlinkStep::Delay(units),
    ]
}

/// `n` single-unit pulses.
pub open spec fn pulses(pin: usize, n: int) -> Seq<BlinkStep>
    decreases n,
{
    if n <= 0 {
        Seq::<BlinkStep>::empty()
    } else {
        pulses(pin, n - 1) + led_steps(pin, 1)
    }
}

/// The four-bit groups of one value, least significant first: each becomes
/// its value plus one pulses and a two-unit gap.
pub open spec fn blink_nibbles(pin: usize, v: u32) -> Seq<BlinkStep>
    decreases v,
    via blink_nibbles_decreases
{
    let part = pulses(pin, (v & 0xf) + 1) + seq![BlinkStep::Delay(2)];
    if v / 16 == 0 {
        part
    } else {
        part + blink_nibbles(pin, v / 16)
    }
}

#[via_fn]
proof fn blink_nibbles_decreases(pin: usize, v: u32) {
    if v / 16 != 0 {
        vstd::arithmetic::div_mod::lemma_div_is_strictly_smaller(v as int, 16);
    }
}

/// The blink pattern of one value: its four-bit groups, then the four-unit
/// gap that ends the value.
pub open spec fn blink_steps(pin: usize, v: u32) -> Seq<BlinkStep> {
    blink_nibbles(pin, v) + seq![BlinkStep::Delay(4)]
}

/// The blink pattern of a value list: a long opening pulse, then each value.
pub open spec fn pattern_steps(pin: usize, values: Seq<u32>) -> Seq<BlinkStep>
    decreases values.len(),
{
    if values.len() == 0 {
        led_steps(pin, 4)
    } else {
        pattern_steps(pin, values.drop_last()) + blink_steps(pin, values.last())
    }
}

/// Blinks values on the board LED so a failure reason can be read off the
/// device without a debugger.
pub struct Blinker {
    pub pin: usize,
    pub tu: u32,
}

impl Blinker {
    pub fn new(pin: usize, tu: u32) -> (r: Blinker)
        ensures
            r.pin == pin,
            r.tu == tu,
    {
        Blinker { pin, tu }
    }

    /// The steps of one pulse of `units` time units.
    fn led(&self, units: u32) -> (r: Vec<BlinkStep>)
        ensures
            r@ == led_steps(self.pin, units),
    {
        let mut v: Vec<BlinkStep> = Vec::new();
        v.push(BlinkStep::GpioClear(self.pin));
        v.push(BlinkStep::Delay(units));
        v.push(BlinkStep::GpioSet(self.pin));
        v.push(BlinkStep::Delay(units));
        proof {
            assert(v@ =~= led_steps(self.pin, units));
        }
        v
    }

    /// The steps that blink one value, nibble by nibble.
    pub fn blink(&self, value: u32) -> (r: Vec<BlinkStep>)
        ensures
            r@ == blink_steps(self.pin, value),
    {
        let mut steps: Vec<BlinkStep> = Vec::new();
        let mut value = value;
        let ghost v0 = value;
        loop
            invariant_except_break
                blink_nibbles(self.pin, v0) == steps@ + blink_nibbles(self.pin, value),
            ensures
                blink_nibbles(self.pin, v0) == steps@,
            decreases value,
        {
            let ghost pre = steps@;
            let ghost vpre = value;
            proof {
                assert(value & 0x0f < 16) by (bit_vector);
            }
            let nibble = (value & 0x0f) + 1;
            let mut i: u32 = 0;
            while i < nibble
                invariant
                    0 <= i <= nibble,
                    nibble == (vpre & 0x0f) + 1,
                    steps@ == pre + pulses(self.pin, i as int),
                decreases nibble - i,
            {
                let mut p = self.led(1);
                steps.append(&mut p);
                proof {
                    assert(steps@ =~= pre + pulses(self.pin, i + 1));
                }
                i = i + 1;
            }
            steps.push(BlinkStep::Delay(2));
            proof {
                assert(steps@ =~= pre + (pulses(self.pin, (vpre & 0x0f) + 1) + seq![
                    BlinkStep::Delay(2),
                ]));
            }
            value = value >> 4;
            proof {
                assert(vpre >> 4 == vpre / 16) by (bit_vector);
                if value == 0 {
                    assert(blink_nibbles(self.pin, vpre) =~= pulses(self.pin, (vpre & 0x0f) + 1)
                        + seq![BlinkStep::Delay(2)]);
                    assert(steps@ =~= pre + blink_nibbles(self.pin, vpre));
                } else {
                    assert(blink_nibbles(self.pin, vpre) =~= (pulses(self.pin, (vpre & 0x0f) + 1)
                        + seq![BlinkStep::Delay(2)]) + blink_nibbles(self.pin, vpre / 16));
                    assert(pre + blink_nibbles(self.pin, vpre) =~= steps@ + blink_nibbles(
                        self.pin,
                        value,
                    ));
                }
                assert(vpre / 16 < vpre || vpre == 0) by {
                    if vpre > 0 {
                        vstd::arithmetic::div_mod::lemma_div_is_strictly_smaller(vpre as int, 16);
                    }
                }
            }
            if value == 0 {
                break ;
            }
        }
        steps.push(BlinkStep::Delay(4));
        proof {
            assert(steps@ =~= blink_steps(self.pin, v0));
        }
        steps
    }

    /// The steps that blink every value of `values`, after a long opening
    /// pulse.
    pub fn pattern(&self, values: &[u32]) -> (r: Vec<BlinkStep>)
        ensures
            r@ == pattern_steps(self.pin, values@),
    {
        let mut steps: Vec<BlinkStep> = self.led(4);
        let n = values.len();
        let mut i: usize = 0;
        proof {
            assert(values@.subrange(0, 0) =~= Seq::<u32>::empty());
            assert(steps@ =~= pattern_steps(self.pin, values@.subrange(0, 0)));
        }
        while i < n
            invariant
                0 <= i <= n,
                n == values@.len(),
                steps@ == pattern_steps(self.pin, values@.subrange(0, i as int)),
            decreases n - i,
        {
            let mut b = self.blink(values[i]);
            steps.append(&mut b);
            proof {
                assert(values@.subrange(0, i + 1).drop_last() =~= values@.subrange(0, i as int));
                assert(values@.subrange(0, i + 1).last() == values@[i as int]);
                assert(steps@ =~= pattern_steps(self.pin, values@.subrange(0, i + 1)));
            }
            i = i + 1;
        }
        proof {
            assert(values@.subrange(0, n as int) =~= values@);
        }
        steps
    }
}

/// The two values blinked for each failure reason before the device resets.
pub fn abort_values(reason: NanoReason) -> (r: (u32, u32))
    ensures
        r == (match reason {
            NanoReason::HalError(e) => (0u32, e as u32),
            NanoReason::FwSizeInvalid => (1u32, 0u32),
            NanoReason::FwCrcMismatch => (1u32, 1u32),
        }),
{
    match reason {
        NanoReason::HalError(e) => (0, e as u32),
        NanoReason::FwSizeInvalid => (1, 0),
        NanoReason::FwCrcMismatch => (1, 1),
    }
}

/// Where an update pointer sits in the bootloader data page, read as pairs
/// of 64-bit words: `blank[i]` says whether word `i` verified blank. A blank
/// first word ends the scan with nothing; a used first word whose partner is
/// blank is the pending update pointer.
pub open spec fn update_find_spec(blank: Seq<bool>, i: int) -> Option<int>
    decreases blank.len() - i,
{
    if i < 0 || i + 1 >= blank.len() {
        None
    } else if blank[i] {
        None
    } else if blank[i + 1] {
        Some(i)
    } else {
        update_find_spec(blank, i + 2)
    }
}

/// A found update pointer lies inside the scanned page.
pub proof fn lemma_update_find_bounds(blank: Seq<bool>, i: int)
    ensures
        update_find_spec(blank, i) matches Some(j) ==> i <= j && j + 1 < blank.len(),
    decreases blank.len() - i,
{
    if 0 <= i && i + 1 < blank.len() && !blank[i] && !blank[i + 1] {
        lemma_update_find_bounds(blank, i + 2);
    }
}

/// Scan the blank-verify results of the bootloader data page for a pending
/// update pointer: the word index of the first pair whose first word is
/// used and whose second is still blank, stopping at the first fully blank
/// pair.
pub fn update_find(blank: &[bool]) -> (r: Option<usize>)
    ensures
        r == (match update_find_spec(blank@, 0) {
            Some(i) => Some(i as usize),
            None => None::<usize>,
        }),
        r matches Some(i) ==> i + 1 < blank@.len(),
{
    let n = blank.len();
    let mut i: usize = 0;
    loop
        invariant
            0 <= i,
            n == blank@.len(),
            update_find_spec(blank@, 0) == update_find_spec(blank@, i as int),
        decreases n - i,
    {
        if i >= n || i + 1 >= n {
            return None;
        }
        if blank[i] {
            return None;
        }
        if blank[i + 1] {
            return Some(i);
        }
        i = i + 2;
    }
}

/// The operations that clear a found update pointer: program the second
/// word of its pair to zero.
pub fn update_clear(blank: &[bool]) -> (r: Option<Vec<FlashOp>>)
    requires
        blank@.len() <= 128,
    ensures
        match r {
            Some(ops) => update_find_spec(blank@, 0) matches Some(i) && ops@ == seq![
                FlashOp::SetCommand { command: FlashCmd::Program, size: FlashOpSize::OneWord },
                FlashOp::SetAddress((BL_DATA_START + (i + 1) * 8) as u32),
                FlashOp::SetData { index: 0, value: 0u32 },
                FlashOp::SetData { index: 1, value: 0u32 },
                FlashOp::SetProtectMask(
                    !(1u32 << ((BL_DATA_START + (i + 1) * 8) as u32 / FLASH_PAGE_SZ)),
                ),
                FlashOp::Execute,
            ],
            None => update_find_spec(blank@, 0).is_none(),
        },
{
    match update_find(blank) {
        None => None,
        Some(i) => {
            proof {
                lemma_update_find_bounds(blank@, 0);
                assert(update_find_spec(blank@, 0) == Some(i as int));
            }
            let addr: u32 = BL_DATA_START + ((i as u32) + 1) * 8;
            proof {
                assert(addr == (BL_DATA_START + (i as int + 1) * 8) as u32);
                assert(addr < 32 * FLASH_PAGE_SZ);
            }
            let ops = write_word(addr, 0);
            proof {
                assert((0u64 >> 32) as u32 == 0u32) by (bit_vector);
                assert(ops@ =~= seq![
                    FlashOp::SetCommand { command: FlashCmd::Program, size: FlashOpSize::OneWord },
                    FlashOp::SetAddress((BL_DATA_START + (i as int + 1) * 8) as u32),
                    FlashOp::SetData { index: 0, value: 0u32 },
                    FlashOp::SetData { index: 1, value: 0u32 },
                    FlashOp::SetProtectMask(
                        !(1u32 << ((BL_DATA_START + (i as int + 1) * 8) as u32 / FLASH_PAGE_SZ)),
                    ),
                    FlashOp::Execute,
                ]);
            }
            Some(ops)
        },
    }
}

/// The byte-to-word programming front end: bytes gather in a 64-bit buffer,
/// and each full buffer is committed as one flash word write.
pub struct FlashProgramming {
    pub address: u32,
    pub buffer: u64,
    pub count: u8,
}

/// The MSPM0 hardware abstraction: its programming state machine, whose
/// decisions come out as flash operations for the hardware side to perform.
pub struct MspM0CHal {
    pub prog: FlashProgramming,
}

impl Default for MspM0CHal {
    fn default() -> (r: MspM0CHal)
        ensures
            r.prog.address == 0 && r.prog.buffer == 0 && r.prog.count == 0,
    {
        MspM0CHal { prog: FlashProgramming { address: 0, buffer: 0, count: 0 } }
    }
}

impl MspM0CHal {
    /// Start programming at the firmware start.
    pub fn program_start(&mut self)
        ensures
            final(self).prog.address == 0,
            final(self).prog.buffer == !0u64,
            final(self).prog.count == 0,
    {
        self.prog.address = 0;
        self.prog.buffer = !0;
        self.prog.count = 0;
    }

    /// Merge one byte into the word buffer.
    pub fn program_add_byte(&mut self, value: u8)
        requires
            old(self).prog.count < 8,
        ensures
            final(self).prog.address == old(self).prog.address,
            final(self).prog.buffer == (old(self).prog.buffer | ((value as u64) << (
            old(self).prog.count * 8))),
            final(self).prog.count == old(self).prog.count + 1,
    {
        self.prog.buffer = self.prog.buffer | ((value as u64) << (self.prog.count * 8));
        self.prog.count = self.prog.count + 1;
    }

    /// Commit the buffered word to flash once it is full, or on `force` when
    /// it holds anything: an erase first on a page boundary, then the word
    /// write; the buffer resets to all-ones for the next word.
    pub fn program_commit_word(&mut self, force: bool) -> (r: Vec<FlashOp>)
        requires
            old(self).prog.count == 8 || (force && old(self).prog.count != 0) ==> old(
                self,
            ).prog.address < 32 * FLASH_PAGE_SZ - 8,
        ensures
            ({
                let commit = old(self).prog.count == 8 || (force && old(self).prog.count != 0);
                if commit {
                    &&& final(self).prog.address == old(self).prog.address + 8
                    &&& final(self).prog.buffer == !0u64
                    &&& final(self).prog.count == 0
                    &&& r@ == (if old(self).prog.address % FLASH_PAGE_SZ == 0 {
                        seq![
                            FlashOp::SetCommand {
                                command: FlashCmd::Erase,
                                size: FlashOpSize::Sector,
                            },
                            FlashOp::SetAddress(old(self).prog.address),
                            FlashOp::SetProtectMask(
                                !(1u32 << (old(self).prog.address / FLASH_PAGE_SZ)),
                            ),
                            FlashOp::Execute,
                        ]
                    } else {
                        Seq::<FlashOp>::empty()
                    }) + seq![
                        FlashOp::SetCommand {
                            command: FlashCmd::Program,
                            size: FlashOpSize::OneWord,
                        },
                        FlashOp::SetAddress(old(self).prog.address),
                        FlashOp::SetData { index: 0, value: old(self).prog.buffer as u32 },
                        FlashOp::SetData {
                            index: 1,
                            value: (old(self).prog.buffer >> 32) as u32,
                        },
                        FlashOp::SetProtectMask(
                            !(1u32 << (old(self).prog.address / FLASH_PAGE_SZ)),
                        ),
                        FlashOp::Execute,
                    ]
                } else {
                    &&& *final(self) == *old(self)
                    &&& r@ == Seq::<FlashOp>::empty()
                }
            }),
    {
        if self.prog.count == 8 || (force && self.prog.count != 0) {
            let mut ops: Vec<FlashOp> = Vec::new();
            if is_aligned(self.prog.address, FLASH_PAGE_SZ) {
                let mut e = erase_page(self.prog.address);
                ops.append(&mut e);
            }
            let mut w = write_word(self.prog.address, self.prog.buffer);
            ops.append(&mut w);
            proof {
                assert(ops@ =~= (if old(self).prog.address % FLASH_PAGE_SZ == 0 {
                    seq![
                        FlashOp::SetCommand { command: FlashCmd::Erase, size: FlashOpSize::Sector },
                        FlashOp::SetAddress(old(self).prog.address),
                        FlashOp::SetProtectMask(
                            !(1u32 << (old(self).prog.address / FLASH_PAGE_SZ)),
                        ),
                        FlashOp::Execute,
                    ]
                } else {
                    Seq::<FlashOp>::empty()
                }) + seq![
                    FlashOp::SetCommand { command: FlashCmd::Program, size: FlashOpSize::OneWord },
                    FlashOp::SetAddress(old(self).prog.address),
                    FlashOp::SetData { index: 0, value: old(self).prog.buffer as u32 },
                    FlashOp::SetData { index: 1, value: (old(self).prog.buffer >> 32) as u32 },
                    FlashOp::SetProtectMask(!(1u32 << (old(self).prog.address / FLASH_PAGE_SZ))),
                    FlashOp::Execute,
                ]);
            }
            self.prog.address = self.prog.address + 8;
            self.prog.buffer = !0;
            self.prog.count = 0;
            ops
        } else {
            Vec::new()
        }
    }
}

} // verus!
