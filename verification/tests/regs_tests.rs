use moonbow::errors::EmuError;
use moonbow::peripherals::{Peripheral, SCS, SCS_BASE, VTOR_OFFSET};
use moonbow::regs::{ReadPolicy, RegisterBank, RegisterEntry, WriteEffect, WritePolicy};

fn demo_bank() -> RegisterBank {
    let entries = vec![
        RegisterEntry {
            name: "ctrl",
            offset: 0x0,
            reset_value: 0x1234_5678,
            read_policy: ReadPolicy::Stored,
            write_policy: WritePolicy::Store,
        value: 0,
        },
        RegisterEntry {
            name: "id",
            offset: 0x4,
            reset_value: 0,
            read_policy: ReadPolicy::Constant(0xCAFE_F00D),
            write_policy: WritePolicy::Store,
            value: 0,
        },
        RegisterEntry {
            name: "status",
            offset: 0x8,
            reset_value: 7,
            read_policy: ReadPolicy::Stored,
            write_policy: WritePolicy::Nop,
            value: 0,
        },
    ];
    RegisterBank::new("DEMO", entries)
}

#[test]
fn read_after_reset_returns_reset_value() {
    let bank = demo_bank();
    assert_eq!(bank.read(0x4000_0000, 0x0, 4), Ok(0x1234_5678));
    assert_eq!(bank.read(0x4000_0000, 0x8, 4), Ok(7));
}

#[test]
fn read_after_reset_returns_constant() {
    let bank = demo_bank();
    assert_eq!(bank.read(0x4000_0000, 0x4, 4), Ok(0xCAFE_F00D));
}

#[test]
fn write_then_read_pass_through() {
    let mut bank = demo_bank();
    assert_eq!(bank.write(0, 0x0, 4, 0xDEAD_BEEF), Ok(WriteEffect::Stored));
    assert_eq!(bank.read(0, 0x0, 4), Ok(0xDEAD_BEEF));
}

#[test]
fn write_then_read_constant_unmodified() {
    let mut bank = demo_bank();
    assert_eq!(bank.write(0, 0x4, 4, 0xDEAD_BEEF), Ok(WriteEffect::Stored));
    assert_eq!(bank.read(0, 0x4, 4), Ok(0xCAFE_F00D));
}

#[test]
fn nop_write_is_discarded() {
    let mut bank = demo_bank();
    assert_eq!(bank.write(0, 0x8, 4, 99), Ok(WriteEffect::Ignored));
    assert_eq!(bank.read(0, 0x8, 4), Ok(7));
}

#[test]
fn unaligned_access_fails_without_side_effect() {
    let mut bank = demo_bank();
    for (offset, size) in [(0x1u32, 4u32), (0x2, 4), (0x0, 1), (0x0, 2), (0x0, 8), (0x6, 2)] {
        assert_eq!(bank.read(0, offset, size), Err(EmuError::UnalignedAccess));
        assert_eq!(bank.write(0, offset, size, 1), Err(EmuError::UnalignedAccess));
    }
    assert_eq!(bank.read(0, 0x0, 4), Ok(0x1234_5678));
}

#[test]
fn unmapped_offset_fails() {
    let mut bank = demo_bank();
    assert_eq!(
        bank.read(0x4000_0000, 0xC, 4),
        Err(EmuError::NoRegisterAtOffset { base: 0x4000_0000, offset: 0xC })
    );
    assert_eq!(
        bank.write(0x4000_0000, 0x10, 4, 5),
        Err(EmuError::NoRegisterAtOffset { base: 0x4000_0000, offset: 0x10 })
    );
}

#[test]
fn reset_restores_reset_values() {
    let mut bank = demo_bank();
    bank.write(0, 0x0, 4, 0xFFFF_FFFF).unwrap();
    bank.reset();
    assert_eq!(bank.read(0, 0x0, 4), Ok(0x1234_5678));
}

#[test]
fn scs_vtor_register() {
    let mut scs = SCS::new();
    assert_eq!(scs.name(), "SCS");
    assert_eq!(scs.mmio_read(SCS_BASE, VTOR_OFFSET, 4), Ok(0));
    assert_eq!(scs.mmio_write(SCS_BASE, VTOR_OFFSET, 4, 0x2000_0000), Ok(()));
    assert_eq!(scs.mmio_read(SCS_BASE, VTOR_OFFSET, 4), Ok(0x2000_0000));
    assert_eq!(
        scs.mmio_read(SCS_BASE, 0x0, 4),
        Err(EmuError::NoRegisterAtOffset { base: SCS_BASE, offset: 0 })
    );
}
