//! The declarative register table of a peripheral and its dispatch.
//!
//! A peripheral declares one `RegisterEntry` per 32-bit register: a name, a
//! word-aligned byte offset, a reset value, and a policy for each direction.
//! `RegisterBank` interprets the table: it serves only 4-byte, 4-byte-aligned
//! accesses, resolves the entry by offset, and applies its policy.

use vstd::prelude::*;

use crate::errors::EmuError;

verus! {

/// What a read of the register returns.
#[derive(Clone, Copy, Debug, PartialEq, Eq, Structural)]
pub enum ReadPolicy {
    /// Pass-through: the stored value.
    Stored,
    /// A fixed value, regardless of writes; the entry has no storage.
    Constant(u32),
}

/// What a write to the register does.
#[derive(Clone, Copy, Debug, PartialEq, Eq, Structural)]
pub enum WritePolicy {
    /// Pass-through: store the value.
    Store,
    /// Accept and discard the value.
    Nop,
    /// Hand the value to the owning peripheral, which runs its setter action.
    Trigger,
}

/// What a successful write did, so the owning peripheral can act on it.
#[derive(Clone, Copy, Debug, PartialEq, Eq, Structural)]
pub enum WriteEffect {
    /// The value was stored in the entry.
    Stored,
    /// The value was discarded.
    Ignored,
    /// The owning peripheral must run its setter action on the value.
    Triggered,
}

/// One declared register of a peripheral.
pub struct RegisterEntry {
    pub name: &'static str,
    pub offset: u32,
    pub reset_value: u32,
    pub read_policy: ReadPolicy,
    pub write_policy: WritePolicy,
    /// Pass-through storage; meaningful only under `ReadPolicy::Stored`.
    pub value: u32,
}

/// There is an entry with byte offset `off` in `s`.
pub open spec fn has_reg(s: Seq<RegisterEntry>, off: u32) -> bool {
    exists|i: int| 0 <= i < s.len() && s[i].offset == off
}

/// The index of the entry with byte offset `off` in `s` (unique when the
/// table is well formed).
pub open spec fn reg_idx(s: Seq<RegisterEntry>, off: u32) -> int {
    choose|i: int| 0 <= i < s.len() && s[i].offset == off
}

/// The register table of one peripheral, interpreted generically.
pub struct RegisterBank {
    pub name: &'static str,
    pub entries: Vec<RegisterEntry>,
}

/// The access is the only kind this fabric serves: 4 bytes on a word boundary.
pub open spec fn access_ok(offset: u32, size: u32) -> bool {
    size == 4 && offset % 4 == 0
}

/// What a read of `(offset, size)` returns, given the table state.
pub open spec fn read_result(s: Seq<RegisterEntry>, base: u32, offset: u32, size: u32) -> Result<
    u32,
    EmuError,
> {
    if !access_ok(offset, size) {
        Err(EmuError::UnalignedAccess)
    } else if !has_reg(s, offset) {
        Err(EmuError::NoRegisterAtOffset { base, offset })
    } else {
        match s[reg_idx(s, offset)].read_policy {
            ReadPolicy::Stored => Ok(s[reg_idx(s, offset)].value),
            ReadPolicy::Constant(c) => Ok(c),
        }
    }
}

/// What a write of `value` at `(offset, size)` returns.
pub open spec fn write_outcome(s: Seq<RegisterEntry>, base: u32, offset: u32, size: u32) -> Result<
    WriteEffect,
    EmuError,
> {
    if !access_ok(offset, size) {
        Err(EmuError::UnalignedAccess)
    } else if !has_reg(s, offset) {
        Err(EmuError::NoRegisterAtOffset { base, offset })
    } else {
        match s[reg_idx(s, offset)].write_policy {
            WritePolicy::Store => Ok(WriteEffect::Stored),
            WritePolicy::Nop => Ok(WriteEffect::Ignored),
            WritePolicy::Trigger => Ok(WriteEffect::Triggered),
        }
    }
}

/// The table state after a write of `value` at `(offset, size)`: unchanged
/// unless the access reaches an entry whose write policy stores.
pub open spec fn write_state(s: Seq<RegisterEntry>, offset: u32, size: u32, value: u32) -> Seq<
    RegisterEntry,
> {
    if access_ok(offset, size) && has_reg(s, offset) && s[reg_idx(s, offset)].write_policy
        == WritePolicy::Store {
        let i = reg_idx(s, offset);
        s.update(i, RegisterEntry { value, ..s[i] })
    } else {
        s
    }
}

/// The table state after a reset: every pass-through entry holds its declared
/// reset value; constant-policy entries have no storage to reset.
pub open spec fn reset_state(s: Seq<RegisterEntry>) -> Seq<RegisterEntry> {
    Seq::new(
        s.len(),
        |i: int|
            if s[i].read_policy == ReadPolicy::Stored {
                RegisterEntry { value: s[i].reset_value, ..s[i] }
            } else {
                s[i]
            },
    )
}

impl RegisterBank {
    /// Offsets are word-aligned and pairwise distinct.
    pub open spec fn wf(self) -> bool {
        &&& forall|i: int| 0 <= i < self.entries@.len() ==> (#[trigger] self.entries@[i].offset)
            % 4 == 0
        &&& forall|i: int, j: int|
            0 <= i < self.entries@.len() && 0 <= j < self.entries@.len() && i != j
                ==> #[trigger] self.entries@[i].offset != #[trigger] self.entries@[j].offset
    }

    /// Build a bank from its declared entries and put it in reset state.
    pub fn new(name: &'static str, entries: Vec<RegisterEntry>) -> (r: RegisterBank)
        requires
            forall|i: int| 0 <= i < entries@.len() ==> (#[trigger] entries@[i].offset) % 4 == 0,
            forall|i: int, j: int|
                0 <= i < entries@.len() && 0 <= j < entries@.len() && i != j
                    ==> #[trigger] entries@[i].offset != #[trigger] entries@[j].offset,
        ensures
            r.wf(),
            r.name == name,
            r.entries@ == reset_state(entries@),
    {
        let mut bank = RegisterBank { name, entries };
        bank.reset();
        proof {
            assert(bank.entries@ =~= reset_state(bank.entries@));
        }
        bank
    }

    /// Find the entry declared at byte offset `off`.
    fn find(&self, off: u32) -> (r: Option<usize>)
        requires
            self.wf(),
        ensures
            match r {
                Some(i) => has_reg(self.entries@, off) && i == reg_idx(self.entries@, off),
                None => !has_reg(self.entries@, off),
            },
    {
        let n = self.entries.len();
        let mut i: usize = 0;
        while i < n
            invariant
                n == self.entries@.len(),
                0 <= i <= n,
                self.wf(),
                forall|j: int| 0 <= j < i ==> #[trigger] self.entries@[j].offset != off,
            decreases n - i,
        {
            if self.entries[i].offset == off {
                proof {
                    assert(has_reg(self.entries@, off));
                    let k = reg_idx(self.entries@, off);
                    assert(self.entries@[k].offset == off);
                }
                return Some(i);
            }
            i = i + 1;
        }
        proof {
            assert forall|j: int| 0 <= j < self.entries@.len() implies #[trigger] self.entries@[j].offset
                != off by {}
        }
        None
    }

    /// Serve a read: only 4-byte aligned accesses, by the entry's read policy.
    pub fn read(&self, base: u32, offset: u32, size: u32) -> (r: Result<u32, EmuError>)
        requires
            self.wf(),
        ensures
            r == read_result(self.entries@, base, offset, size),
    {
        if !(size == 4 && offset % 4 == 0) {
            return Err(EmuError::UnalignedAccess);
        }
        match self.find(offset) {
            None => Err(EmuError::NoRegisterAtOffset { base, offset }),
            Some(i) => match self.entries[i].read_policy {
                ReadPolicy::Stored => Ok(self.entries[i].value),
                ReadPolicy::Constant(c) => Ok(c),
            },
        }
    }

    /// Serve a write: only 4-byte aligned accesses; storage changes only for
    /// a pass-through entry, and a trigger is reported to the caller.
    pub fn write(&mut self, base: u32, offset: u32, size: u32, value: u32) -> (r: Result<
        WriteEffect,
        EmuError,
    >)
        requires
            old(self).wf(),
        ensures
            final(self).wf(),
            final(self).name == old(self).name,
            r == write_outcome(old(self).entries@, base, offset, size),
            final(self).entries@ == write_state(old(self).entries@, offset, size, value),
    {
        if !(size == 4 && offset % 4 == 0) {
            return Err(EmuError::UnalignedAccess);
        }
        let ghost s0 = self.entries@;
        match self.find(offset) {
            None => Err(EmuError::NoRegisterAtOffset { base, offset }),
            Some(i) => {
                match self.entries[i].write_policy {
                    WritePolicy::Store => {
                        let e = RegisterEntry {
                            name: self.entries[i].name,
                            offset: self.entries[i].offset,
                            reset_value: self.entries[i].reset_value,
                            read_policy: self.entries[i].read_policy,
                            write_policy: self.entries[i].write_policy,
                            value,
                        };
                        self.entries.set(i, e);
                        proof {
                            assert(self.entries@ =~= write_state(s0, offset, size, value));
                        }
                        Ok(WriteEffect::Stored)
                    },
                    WritePolicy::Nop => Ok(WriteEffect::Ignored),
                    WritePolicy::Trigger => Ok(WriteEffect::Triggered),
                }
            },
        }
    }

    /// Return every pass-through entry to its declared reset value.
    pub fn reset(&mut self)
        requires
            old(self).wf(),
        ensures
            final(self).wf(),
            final(self).name == old(self).name,
            final(self).entries@ == reset_state(old(self).entries@),
    {
        let n = self.entries.len();
        let mut i: usize = 0;
        while i < n
            invariant
                n == old(self).entries@.len(),
                self.entries@.len() == n,
                0 <= i <= n,
                self.name == old(self).name,
                forall|j: int| 0 <= j < n ==> #[trigger] self.entries@[j].offset
                    == old(self).entries@[j].offset,
                forall|j: int| 0 <= j < i ==> #[trigger] self.entries@[j]
                    == reset_state(old(self).entries@)[j],
                forall|j: int| i <= j < n ==> #[trigger] self.entries@[j] == old(self).entries@[j],
                old(self).wf(),
            decreases n - i,
        {
            match self.entries[i].read_policy {
                ReadPolicy::Stored => {
                    let e = RegisterEntry {
                        name: self.entries[i].name,
                        offset: self.entries[i].offset,
                        reset_value: self.entries[i].reset_value,
                        read_policy: self.entries[i].read_policy,
                        write_policy: self.entries[i].write_policy,
                        value: self.entries[i].reset_value,
                    };
                    self.entries.set(i, e);
                },
                ReadPolicy::Constant(_) => {},
            }
            i = i + 1;
        }
        proof {
            assert(self.entries@ =~= reset_state(old(self).entries@));
        }
    }
}

/// A 4-byte aligned read just after reset returns the declared reset value of
/// a pass-through register, and the constant of a constant register.
pub proof fn lemma_read_after_reset(s: Seq<RegisterEntry>, base: u32, i: int)
    requires
        0 <= i < s.len(),
        forall|k: int| 0 <= k < s.len() ==> (#[trigger] s[k].offset) % 4 == 0,
        forall|k: int, j: int|
            0 <= k < s.len() && 0 <= j < s.len() && k != j
                ==> #[trigger] s[k].offset != #[trigger] s[j].offset,
    ensures
        read_result(reset_state(s), base, s[i].offset, 4) == match s[i].read_policy {
            ReadPolicy::Stored => Ok::<u32, EmuError>(s[i].reset_value),
            ReadPolicy::Constant(c) => Ok::<u32, EmuError>(c),
        },
{
    let rs = reset_state(s);
    assert(rs[i].offset == s[i].offset);
    assert(has_reg(rs, s[i].offset));
    let k = reg_idx(rs, s[i].offset);
    assert(rs[k].offset == s[i].offset);
    assert(k == i);
}

/// Writing `v` to a declared register and reading the same offset back
/// returns `v` for a pass-through register, and the unmodified constant for a
/// constant register.
pub proof fn lemma_write_then_read(s: Seq<RegisterEntry>, base: u32, i: int, v: u32)
    requires
        0 <= i < s.len(),
        forall|k: int| 0 <= k < s.len() ==> (#[trigger] s[k].offset) % 4 == 0,
        forall|k: int, j: int|
            0 <= k < s.len() && 0 <= j < s.len() && k != j
                ==> #[trigger] s[k].offset != #[trigger] s[j].offset,
        s[i].read_policy == ReadPolicy::Stored ==> s[i].write_policy == WritePolicy::Store,
    ensures
        read_result(write_state(s, s[i].offset, 4, v), base, s[i].offset, 4) == match s[i].read_policy {
            ReadPolicy::Stored => Ok::<u32, EmuError>(v),
            ReadPolicy::Constant(c) => Ok::<u32, EmuError>(c),
        },
{
    assert(has_reg(s, s[i].offset));
    let k = reg_idx(s, s[i].offset);
    assert(s[k].offset == s[i].offset);
    assert(k == i);
    let ws = write_state(s, s[i].offset, 4, v);
    assert(ws[i].offset == s[i].offset);
    assert(has_reg(ws, s[i].offset));
    let m = reg_idx(ws, s[i].offset);
    assert(ws[m].offset == s[i].offset);
    assert(m == i);
}

} // verus!
