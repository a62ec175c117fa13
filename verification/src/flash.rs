//! The flash controller: a direct-mapped NOR flash array plus a small MMIO
//! register block that drives its program/erase state machine.
//!
//! A program operation can only clear bits: the addressed 32-bit word becomes
//! the logical AND of its old value and the data register. An erase fills the
//! whole page containing the addressed byte with `0xFF`. Commands aimed
//! outside the array are silently ignored.

use vstd::prelude::*;

use crate::bytes::{
    align_down, align_down_spec, is_pow2, le32, le32_byte, lemma_mod_chain, lemma_mod_pos_ge,
    lemma_mod_sub, lemma_mul_mod, read_le32, write_le32,
};
use crate::errors::EmuError;
use crate::peripherals::{filled, MemoryMapping, Peripheral, Permissions};
use crate::regs::{
    has_reg, read_result, reg_idx, write_outcome, write_state, ReadPolicy, RegisterBank,
    RegisterEntry, WriteEffect, WritePolicy,
};

verus! {

/// Command value that programs (ANDs) one word.
pub const CMD_PROGRAM: u32 = 0x860c_d758;

/// Command value that erases (fills with `0xFF`) one page.
pub const CMD_ERASE: u32 = 0x4c6f_315f;

/// Byte offset of the read-only status register.
pub const STATUS_OFFSET: u32 = 0x0;

/// Byte offset of the target address register.
pub const ADDR_OFFSET: u32 = 0x4;

/// Byte offset of the program data register.
pub const DATA_OFFSET: u32 = 0x8;

/// Byte offset of the write-only command trigger register.
pub const COMMAND_OFFSET: u32 = 0xc;

/// Size of the control register MMIO region.
pub const CTRL_REGION_SIZE: u32 = 1024;

/// `data` with the four bytes at `off` replaced by `w`, little-endian.
pub open spec fn programmed(data: Seq<u8>, off: int, w: u32) -> Seq<u8> {
    Seq::new(
        data.len(),
        |i: int|
            if off <= i < off + 4 {
                le32_byte(w, i - off)
            } else {
                data[i]
            },
    )
}

/// `data` with the `pgsz` bytes at `off` replaced by `0xFF`.
pub open spec fn erased(data: Seq<u8>, off: int, pgsz: int) -> Seq<u8> {
    Seq::new(
        data.len(),
        |i: int|
            if off <= i < off + pgsz {
                0xFFu8
            } else {
                data[i]
            },
    )
}

/// The flash contents after a write of `cmd` to the command register, given
/// the current address and data register values.
pub open spec fn command_data(
    data: Seq<u8>,
    flash_base: u32,
    page_size: u32,
    reg_addr: u32,
    reg_data: u32,
    cmd: u32,
) -> Seq<u8> {
    if cmd == CMD_PROGRAM {
        let a = align_down_spec(reg_addr, 4);
        if flash_base <= a < flash_base + data.len() {
            let off = a - flash_base;
            programmed(data, off, le32(data.subrange(off, off + 4)) & reg_data)
        } else {
            data
        }
    } else if cmd == CMD_ERASE {
        let a = align_down_spec(reg_addr, page_size);
        if flash_base <= a < flash_base + data.len() {
            erased(data, a - flash_base, page_size as int)
        } else {
            data
        }
    } else {
        data
    }
}

/// The fixed shape of the flash control register table.
pub open spec fn flash_bank_wf(s: Seq<RegisterEntry>) -> bool {
    &&& s.len() == 4
    &&& s[0].offset == STATUS_OFFSET && s[0].read_policy == ReadPolicy::Stored && s[0].write_policy
        == WritePolicy::Nop
    &&& s[1].offset == ADDR_OFFSET && s[1].read_policy == ReadPolicy::Stored && s[1].write_policy
        == WritePolicy::Store
    &&& s[2].offset == DATA_OFFSET && s[2].read_policy == ReadPolicy::Stored && s[2].write_policy
        == WritePolicy::Store
    &&& s[3].offset == COMMAND_OFFSET && s[3].read_policy == ReadPolicy::Constant(0)
        && s[3].write_policy == WritePolicy::Trigger
}

pub struct FlashController {
    pub region_name: &'static str,
    pub flash_base: u32,
    pub ctrl_base: u32,
    pub page_size: u32,
    pub data: Vec<u8>,
    pub bank: RegisterBank,
}

impl FlashController {
    /// The status register value as currently stored.
    pub open spec fn reg_status(self) -> u32 {
        self.bank.entries@[0].value
    }

    /// The address register value as currently stored.
    pub open spec fn reg_addr(self) -> u32 {
        self.bank.entries@[1].value
    }

    /// The data register value as currently stored.
    pub open spec fn reg_data(self) -> u32 {
        self.bank.entries@[2].value
    }

    /// `addr` points into the flash array.
    pub open spec fn in_range(self, addr: int) -> bool {
        self.flash_base <= addr < self.flash_base + self.data@.len()
    }

    /// Build a controller over `page_count` pages of `page_size` bytes of
    /// erased (all-ones) flash at `flash_base`, with its register block at
    /// `ctrl_base`. The page size must be a power of two of at least one
    /// word, and the array must be page-aligned and fit the address space.
    pub fn new(
        flash_base: u32,
        page_size: u32,
        page_count: u32,
        ctrl_base: u32,
        name: Option<&'static str>,
    ) -> (r: FlashController)
        requires
            is_pow2(page_size),
            page_size >= 4,
            page_count > 0,
            flash_base % page_size == 0,
            page_count * page_size <= u32::MAX,
            flash_base + page_count * page_size <= 0x1_0000_0000,
        ensures
            r.inv(),
            r.flash_base == flash_base,
            r.ctrl_base == ctrl_base,
            r.page_size == page_size,
            r.data@ == Seq::new((page_count * page_size) as nat, |i: int| 0xFFu8),
            r.reg_status() == 0,
            r.reg_addr() == 0,
            r.reg_data() == 0,
            r.region_name == (match name {
                Some(n) => n,
                None => "FLASH",
            }),
    {
        let region_name = match name {
            Some(n) => n,
            None => "FLASH",
        };
        proof {
            assert(page_size % 4 == 0) by (bit_vector)
                requires
                    page_size >= 4,
                    page_size & ((page_size - 1) as u32) == 0,
            ;
        }
        let size: usize = (page_count as usize) * (page_size as usize);
        let data = filled(size, 0xff);
        let mut entries: Vec<RegisterEntry> = Vec::new();
        entries.push(
            RegisterEntry {
                name: "status",
                offset: STATUS_OFFSET,
                reset_value: 0,
                read_policy: ReadPolicy::Stored,
                write_policy: WritePolicy::Nop,
                value: 0,
            },
        );
        entries.push(
            RegisterEntry {
                name: "addr",
                offset: ADDR_OFFSET,
                reset_value: 0,
                read_policy: ReadPolicy::Stored,
                write_policy: WritePolicy::Store,
                value: 0,
            },
        );
        entries.push(
            RegisterEntry {
                name: "data",
                offset: DATA_OFFSET,
                reset_value: 0,
                read_policy: ReadPolicy::Stored,
                write_policy: WritePolicy::Store,
                value: 0,
            },
        );
        entries.push(
            RegisterEntry {
                name: "command",
                offset: COMMAND_OFFSET,
                reset_value: 0,
                read_policy: ReadPolicy::Constant(0),
                write_policy: WritePolicy::Trigger,
            value: 0,
            },
        );
        let bank = RegisterBank::new("FLASH", entries);
        let r = FlashController {
            region_name,
            flash_base,
            ctrl_base,
            page_size,
            data,
            bank,
        };
        proof {
            lemma_mul_mod(page_count as int, page_size as int, 4);
            lemma_mod_chain(flash_base as int, page_size as int, 4);
            assert(page_count * page_size >= page_size) by (nonlinear_arith)
                requires
                    page_count >= 1,
                    page_size >= 4,
            ;
        }
        r
    }

    /// Execute the command just written to the command register.
    fn set_reg_command(&mut self, value: u32)
        requires
            old(self).inv(),
        ensures
            final(self).inv(),
            final(self).region_name == old(self).region_name,
            final(self).flash_base == old(self).flash_base,
            final(self).ctrl_base == old(self).ctrl_base,
            final(self).page_size == old(self).page_size,
            final(self).bank == old(self).bank,
            final(self).data@ == command_data(
                old(self).data@,
                old(self).flash_base,
                old(self).page_size,
                old(self).reg_addr(),
                old(self).reg_data(),
                value,
            ),
    {
        let len: usize = self.data.len();
        if value == CMD_PROGRAM {
            let addr = align_down(self.bank.entries[1].value, 4);
            if addr >= self.flash_base && ((addr - self.flash_base) as usize) < len {
                let off: usize = (addr - self.flash_base) as usize;
                proof {
                    lemma_mod_sub(addr as int, self.flash_base as int, 4);
                    lemma_mod_sub(len as int, off as int, 4);
                    lemma_mod_pos_ge(len - off, 4);
                }
                let word = read_le32(self.data.as_slice(), off);
                let newword = word & self.bank.entries[2].value;
                write_le32(&mut self.data, off, newword);
                proof {
                    assert(self.data@ =~= command_data(
                        old(self).data@,
                        old(self).flash_base,
                        old(self).page_size,
                        old(self).reg_addr(),
                        old(self).reg_data(),
                        value,
                    ));
                }
            }
        } else if value == CMD_ERASE {
            let addr = align_down(self.bank.entries[1].value, self.page_size);
            if addr >= self.flash_base && ((addr - self.flash_base) as usize) < len {
                let off: usize = (addr - self.flash_base) as usize;
                let pgsz: usize = self.page_size as usize;
                proof {
                    lemma_mod_sub(addr as int, self.flash_base as int, self.page_size as int);
                    lemma_mod_sub(len as int, off as int, self.page_size as int);
                    lemma_mod_pos_ge(len - off, self.page_size as int);
                }
                let mut k: usize = 0;
                while k < pgsz
                    invariant
                        0 <= k <= pgsz,
                        off + pgsz <= len,
                        len == self.data@.len(),
                        self.data@.len() == old(self).data@.len(),
                        forall|i: int| off <= i < off + k ==> self.data@[i] == 0xFFu8,
                        forall|i: int|
                            0 <= i < self.data@.len() && !(off <= i < off + k) ==> self.data@[i]
                                == old(self).data@[i],
                        self.region_name == old(self).region_name,
                        self.flash_base == old(self).flash_base,
                        self.ctrl_base == old(self).ctrl_base,
                        self.page_size == old(self).page_size,
                        self.bank == old(self).bank,
                    decreases pgsz - k,
                {
                    self.data.set(off + k, 0xff);
                    k = k + 1;
                }
                proof {
                    assert(self.data@ =~= command_data(
                        old(self).data@,
                        old(self).flash_base,
                        old(self).page_size,
                        old(self).reg_addr(),
                        old(self).reg_data(),
                        value,
                    ));
                }
            }
        }
    }
}

impl Peripheral for FlashController {
    open spec fn name_spec(&self) -> &'static str {
        self.region_name
    }

    open spec fn inv(&self) -> bool {
        &&& self.bank.wf()
        &&& flash_bank_wf(self.bank.entries@)
        &&& is_pow2(self.page_size)
        &&& self.page_size >= 4
        &&& self.page_size % 4 == 0
        &&& self.flash_base % self.page_size == 0
        &&& self.flash_base % 4 == 0
        &&& self.data@.len() > 0
        &&& self.data@.len() as int % (self.page_size as int) == 0
        &&& self.data@.len() as int % 4 == 0
        &&& self.flash_base + self.data@.len() <= 0x1_0000_0000
    }

    open spec fn mappings_spec(&self) -> Seq<MemoryMapping> {
        seq![
            MemoryMapping::Direct {
                base: self.flash_base,
                size: self.data@.len() as u32,
                perms: Permissions { r: true, w: false, x: true },
            },
            MemoryMapping::Mmio { base: self.ctrl_base, size: CTRL_REGION_SIZE },
        ]
    }

    open spec fn read_spec(&self, base: u32, offset: u32, size: u32) -> Result<u32, EmuError> {
        read_result(self.bank.entries@, base, offset, size)
    }

    open spec fn write_outcome_spec(&self, base: u32, offset: u32, size: u32, value: u32) -> Result<
        (),
        EmuError,
    > {
        match write_outcome(self.bank.entries@, base, offset, size) {
            Ok(_) => Ok(()),
            Err(e) => Err(e),
        }
    }

    open spec fn write_state_rel(
        self,
        post: FlashController,
        base: u32,
        offset: u32,
        size: u32,
        value: u32,
    ) -> bool {
        &&& post.region_name == self.region_name
        &&& post.flash_base == self.flash_base
        &&& post.ctrl_base == self.ctrl_base
        &&& post.page_size == self.page_size
        &&& post.bank.name == self.bank.name
        &&& post.bank.entries@ == write_state(self.bank.entries@, offset, size, value)
        &&& post.data@ == (if write_outcome(self.bank.entries@, base, offset, size) == Ok::<
            WriteEffect,
            EmuError,
        >(WriteEffect::Triggered) {
            command_data(
                self.data@,
                self.flash_base,
                self.page_size,
                self.reg_addr(),
                self.reg_data(),
                value,
            )
        } else {
            self.data@
        })
    }

    fn name(&self) -> (r: &'static str) {
        self.region_name
    }

    fn mappings(&self) -> (r: Vec<MemoryMapping>) {
        let mut v: Vec<MemoryMapping> = Vec::new();
        v.push(
            MemoryMapping::Direct {
                base: self.flash_base,
                size: self.data.len() as u32,
                perms: Permissions { r: true, w: false, x: true },
            },
        );
        v.push(MemoryMapping::Mmio { base: self.ctrl_base, size: CTRL_REGION_SIZE });
        proof {
            assert(v@ =~= self.mappings_spec());
        }
        v
    }

    fn mmio_read(&self, base: u32, offset: u32, size: u32) -> (r: Result<u32, EmuError>) {
        self.bank.read(base, offset, size)
    }

    fn mmio_write(&mut self, base: u32, offset: u32, size: u32, value: u32) -> (r: Result<
        (),
        EmuError,
    >) {
        let effect = self.bank.write(base, offset, size, value);
        match effect {
            Ok(WriteEffect::Triggered) => {
                self.set_reg_command(value);
                Ok(())
            },
            Ok(_) => Ok(()),
            Err(e) => Err(e),
        }
    }
}

/// The table keeps its shape under a register write: only a stored value can
/// change.
proof fn lemma_write_keeps_shape(s: Seq<RegisterEntry>, offset: u32, size: u32, value: u32)
    requires
        flash_bank_wf(s),
    ensures
        flash_bank_wf(write_state(s, offset, size, value)),
{
    let s1 = write_state(s, offset, size, value);
    assert(s1.len() == s.len());
    assert forall|j: int| 0 <= j < s.len() implies #[trigger] s1[j].offset == s[j].offset
        && s1[j].read_policy == s[j].read_policy && s1[j].write_policy == s[j].write_policy by {}
}

/// A write to a `Store` register at its own offset stores the value there
/// and nowhere else, under the flash table shape.
proof fn lemma_flash_reg_write(s: Seq<RegisterEntry>, b: u32, i: int, v: u32)
    requires
        flash_bank_wf(s),
        forall|k: int, j: int|
            0 <= k < s.len() && 0 <= j < s.len() && k != j ==> #[trigger] s[k].offset
                != #[trigger] s[j].offset,
        i == 1 || i == 2,
    ensures
        write_outcome(s, b, s[i].offset, 4) == Ok::<WriteEffect, EmuError>(WriteEffect::Stored),
        write_state(s, s[i].offset, 4, v) == s.update(i, RegisterEntry { value: v, ..s[i] }),
{
    assert(s[i].offset % 4 == 0);
    assert(has_reg(s, s[i].offset));
    let k = reg_idx(s, s[i].offset);
    assert(s[k].offset == s[i].offset);
    assert(k == i);
}

/// Flash program through the register interface: writing `d` to the data
/// register, `a` to the address register, and then the program command to
/// the command register turns the flash word containing `a` into the AND of
/// its old value and `d`; a target outside the flash array leaves every
/// flash byte unchanged.
pub proof fn lemma_flash_program(
    fc0: FlashController,
    fc1: FlashController,
    fc2: FlashController,
    fc3: FlashController,
    b: u32,
    a: u32,
    d: u32,
)
    requires
        fc0.inv(),
        fc0.write_state_rel(fc1, b, DATA_OFFSET, 4, d),
        fc1.write_state_rel(fc2, b, ADDR_OFFSET, 4, a),
        fc2.write_state_rel(fc3, b, COMMAND_OFFSET, 4, CMD_PROGRAM),
    ensures
        fc0.write_outcome_spec(b, DATA_OFFSET, 4, d) == Ok::<(), EmuError>(()),
        fc1.write_outcome_spec(b, ADDR_OFFSET, 4, a) == Ok::<(), EmuError>(()),
        fc2.write_outcome_spec(b, COMMAND_OFFSET, 4, CMD_PROGRAM) == Ok::<(), EmuError>(()),
        fc3.reg_status() == fc0.reg_status(),
        fc3.reg_addr() == a,
        fc3.reg_data() == d,
        fc0.in_range(align_down_spec(a, 4)) ==> fc3.data@ == ({
            let off = align_down_spec(a, 4) - fc0.flash_base;
            programmed(fc0.data@, off, le32(fc0.data@.subrange(off, off + 4)) & d)
        }),
        !fc0.in_range(align_down_spec(a, 4)) ==> fc3.data@ == fc0.data@,
{
    let s0 = fc0.bank.entries@;
    lemma_flash_reg_write(s0, b, 2, d);
    assert(fc1.data@ == fc0.data@);
    let s1 = fc1.bank.entries@;
    lemma_write_keeps_shape(s0, DATA_OFFSET, 4, d);
    assert forall|k: int, j: int|
        0 <= k < s1.len() && 0 <= j < s1.len() && k != j implies #[trigger] s1[k].offset
        != #[trigger] s1[j].offset by {
        assert(s1[k].offset == s0[k].offset && s1[j].offset == s0[j].offset);
    }
    lemma_flash_reg_write(s1, b, 1, a);
    assert(fc2.data@ == fc0.data@);
    let s2 = fc2.bank.entries@;
    lemma_write_keeps_shape(s1, ADDR_OFFSET, 4, a);
    assert(fc2.reg_addr() == a);
    assert(fc2.reg_data() == d);
    assert forall|k: int, j: int|
        0 <= k < s2.len() && 0 <= j < s2.len() && k != j implies #[trigger] s2[k].offset
        != #[trigger] s2[j].offset by {
        assert(s2[k].offset == s0[k].offset && s2[j].offset == s0[j].offset);
    }
    assert(has_reg(s2, COMMAND_OFFSET));
    let k = reg_idx(s2, COMMAND_OFFSET);
    assert(s2[k].offset == COMMAND_OFFSET);
    assert(k == 3);
    assert(write_outcome(s2, b, COMMAND_OFFSET, 4) == Ok::<WriteEffect, EmuError>(
        WriteEffect::Triggered,
    ));
    assert(fc3.data@ == command_data(
        fc0.data@,
        fc0.flash_base,
        fc0.page_size,
        a,
        d,
        CMD_PROGRAM,
    ));
}

/// Flash erase through the register interface: writing `a` to the address
/// register and then the erase command fills the whole page containing `a`
/// with `0xFF`; a target outside the flash array leaves every flash byte
/// unchanged.
pub proof fn lemma_flash_erase(
    fc0: FlashController,
    fc1: FlashController,
    fc2: FlashController,
    b: u32,
    a: u32,
)
    requires
        fc0.inv(),
        fc0.write_state_rel(fc1, b, ADDR_OFFSET, 4, a),
        fc1.write_state_rel(fc2, b, COMMAND_OFFSET, 4, CMD_ERASE),
    ensures
        fc0.write_outcome_spec(b, ADDR_OFFSET, 4, a) == Ok::<(), EmuError>(()),
        fc1.write_outcome_spec(b, COMMAND_OFFSET, 4, CMD_ERASE) == Ok::<(), EmuError>(()),
        fc2.reg_status() == fc0.reg_status(),
        fc2.reg_addr() == a,
        fc2.reg_data() == fc0.reg_data(),
        fc0.in_range(align_down_spec(a, fc0.page_size)) ==> fc2.data@ == erased(
            fc0.data@,
            align_down_spec(a, fc0.page_size) - fc0.flash_base,
            fc0.page_size as int,
        ),
        !fc0.in_range(align_down_spec(a, fc0.page_size)) ==> fc2.data@ == fc0.data@,
{
    let s0 = fc0.bank.entries@;
    lemma_flash_reg_write(s0, b, 1, a);
    assert(fc1.data@ == fc0.data@);
    let s1 = fc1.bank.entries@;
    lemma_write_keeps_shape(s0, ADDR_OFFSET, 4, a);
    assert(fc1.reg_addr() == a);
    assert forall|k: int, j: int|
        0 <= k < s1.len() && 0 <= j < s1.len() && k != j implies #[trigger] s1[k].offset
        != #[trigger] s1[j].offset by {
        assert(s1[k].offset == s0[k].offset && s1[j].offset == s0[j].offset);
    }
    assert(has_reg(s1, COMMAND_OFFSET));
    let k = reg_idx(s1, COMMAND_OFFSET);
    assert(s1[k].offset == COMMAND_OFFSET);
    assert(k == 3);
    assert(write_outcome(s1, b, COMMAND_OFFSET, 4) == Ok::<WriteEffect, EmuError>(
        WriteEffect::Triggered,
    ));
    assert(fc2.data@ == command_data(
        fc0.data@,
        fc0.flash_base,
        fc0.page_size,
        a,
        fc1.reg_data(),
        CMD_ERASE,
    ));
}

} // verus!
