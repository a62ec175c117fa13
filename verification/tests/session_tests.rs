use moonbow::bytes::{align_down, align_up, read_le16, read_le32, read_le64, write_le32};
use moonbow::device::{CpuModel, Device, PeripheralKind};
use moonbow::errors::EmuError;
use moonbow::peripherals::{Sram, SCS_BASE, VTOR_OFFSET};
use moonbow::session::Context;

fn demo_context() -> Context {
    let peripherals = vec![PeripheralKind::Sram(Sram::new(0x2000_0000, 1024, None))];
    Context::new(Device::new(CpuModel::M0Plus, peripherals))
}

#[test]
fn read_hook_substitutes_zero_on_failure() {
    let ctx = demo_context();
    // No peripheral at this base: the hook reads as zero instead of failing.
    assert_eq!(ctx.handle_mmio_read(0x5000_0000, 0, 4), 0);
    // An unaligned access also reads as zero.
    assert_eq!(ctx.handle_mmio_read(SCS_BASE, 1, 4), 0);
    // A well-formed access reaches the register.
    assert_eq!(ctx.handle_mmio_read(SCS_BASE, VTOR_OFFSET, 4), 0);
}

#[test]
fn write_hook_drops_failures_and_routes_writes() {
    let mut ctx = demo_context();
    ctx.handle_mmio_write(0x5000_0000, 0, 4, 0xAAAA); // dropped
    ctx.handle_mmio_write(SCS_BASE, VTOR_OFFSET, 4, 0x1234);
    assert_eq!(ctx.handle_mmio_read(SCS_BASE, VTOR_OFFSET, 4), 0x1234);
}

#[test]
fn only_the_semihosting_interrupt_is_supported() {
    let ctx = demo_context();
    assert_eq!(ctx.check_interrupt(7), Ok(()));
    assert_eq!(ctx.check_interrupt(3), Err(EmuError::UnsupportedInterrupt { intno: 3 }));
}

#[test]
fn fatal_hook_diagnoses() {
    let ctx = demo_context();
    assert_eq!(ctx.handle_invalid_instruction(), EmuError::InvalidInstruction);
    assert_eq!(ctx.handle_mem_unmapped(), EmuError::UnmappedMemoryAccess);
}

#[test]
fn little_endian_words() {
    let data: &[u8] = &[0x78, 0x56, 0x34, 0x12, 0xEF, 0xBE, 0xAD, 0xDE];
    assert_eq!(read_le16(data, 0), 0x5678);
    assert_eq!(read_le32(data, 0), 0x1234_5678);
    assert_eq!(read_le32(data, 4), 0xDEAD_BEEF);
    assert_eq!(read_le64(data, 0), 0xDEAD_BEEF_1234_5678);

    let mut v = vec![0u8; 6];
    write_le32(&mut v, 1, 0xA1B2_C3D4);
    assert_eq!(v, vec![0, 0xD4, 0xC3, 0xB2, 0xA1, 0]);
}

#[test]
fn alignment_arithmetic() {
    assert_eq!(align_down(0x1003, 4), 0x1000);
    assert_eq!(align_down(0x1000, 4), 0x1000);
    assert_eq!(align_down(0x17FF, 0x400), 0x1400);
    assert_eq!(align_up(0x1001, 0x400), Some(0x1400));
    assert_eq!(align_up(0x1400, 0x400), Some(0x1400));
    assert_eq!(align_up(usize::MAX, 2), None);
}
