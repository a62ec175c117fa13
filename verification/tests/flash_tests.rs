use moonbow::errors::EmuError;
use moonbow::flash::{
    FlashController, ADDR_OFFSET, CMD_ERASE, CMD_PROGRAM, COMMAND_OFFSET, DATA_OFFSET,
    STATUS_OFFSET,
};
use moonbow::peripherals::Peripheral;

fn fresh() -> FlashController {
    // Four pages of 1 KiB erased flash at address 0, registers at 0x4000_0000.
    FlashController::new(0x0000_0000, 1024, 4, 0x4000_0000, None)
}

fn program(fc: &mut FlashController, addr: u32, data: u32) {
    fc.mmio_write(0x4000_0000, DATA_OFFSET, 4, data).unwrap();
    fc.mmio_write(0x4000_0000, ADDR_OFFSET, 4, addr).unwrap();
    fc.mmio_write(0x4000_0000, COMMAND_OFFSET, 4, CMD_PROGRAM).unwrap();
}

#[test]
fn program_ands_the_word() {
    let mut fc = fresh();
    program(&mut fc, 0x100, 0x1234_5678);
    assert_eq!(&fc.data[0x100..0x104], &[0x78, 0x56, 0x34, 0x12]);

    // A second program can only clear bits, never set them.
    program(&mut fc, 0x100, 0xFF00_00FF);
    assert_eq!(&fc.data[0x100..0x104], &[0x78, 0x00, 0x00, 0x12]);

    // Neighbouring bytes stay erased.
    assert_eq!(fc.data[0xFF], 0xFF);
    assert_eq!(fc.data[0x104], 0xFF);
}

#[test]
fn program_aligns_the_target_down() {
    let mut fc = fresh();
    program(&mut fc, 0x103, 0);
    assert_eq!(&fc.data[0x100..0x104], &[0, 0, 0, 0]);
}

#[test]
fn program_out_of_range_is_ignored() {
    let mut fc = fresh();
    program(&mut fc, 4 * 1024, 0);
    assert!(fc.data.iter().all(|b| *b == 0xFF));
}

#[test]
fn erase_fills_the_page() {
    let mut fc = fresh();
    program(&mut fc, 0x400, 0);
    program(&mut fc, 0x7FC, 0);
    assert_eq!(&fc.data[0x400..0x404], &[0, 0, 0, 0]);

    fc.mmio_write(0x4000_0000, ADDR_OFFSET, 4, 0x55C).unwrap();
    fc.mmio_write(0x4000_0000, COMMAND_OFFSET, 4, CMD_ERASE).unwrap();
    assert!(fc.data[0x400..0x800].iter().all(|b| *b == 0xFF));
}

#[test]
fn erase_out_of_range_is_ignored() {
    let mut fc = fresh();
    program(&mut fc, 0x0, 0);
    fc.mmio_write(0x4000_0000, ADDR_OFFSET, 4, 0x2000).unwrap();
    fc.mmio_write(0x4000_0000, COMMAND_OFFSET, 4, CMD_ERASE).unwrap();
    assert_eq!(&fc.data[0..4], &[0, 0, 0, 0]);
}

#[test]
fn unknown_command_has_no_effect() {
    let mut fc = fresh();
    fc.mmio_write(0x4000_0000, ADDR_OFFSET, 4, 0).unwrap();
    fc.mmio_write(0x4000_0000, COMMAND_OFFSET, 4, 0x1111_1111).unwrap();
    assert!(fc.data.iter().all(|b| *b == 0xFF));
}

#[test]
fn register_policies() {
    let mut fc = fresh();
    assert_eq!(fc.name(), "FLASH");
    // Status reads back its stored (reset) value; writes are discarded.
    assert_eq!(fc.mmio_read(0x4000_0000, STATUS_OFFSET, 4), Ok(0));
    fc.mmio_write(0x4000_0000, STATUS_OFFSET, 4, 0xAAAA).unwrap();
    assert_eq!(fc.mmio_read(0x4000_0000, STATUS_OFFSET, 4), Ok(0));

    // The command register always reads as the constant zero.
    fc.mmio_write(0x4000_0000, ADDR_OFFSET, 4, 0x10).unwrap();
    assert_eq!(fc.mmio_read(0x4000_0000, ADDR_OFFSET, 4), Ok(0x10));
    assert_eq!(fc.mmio_read(0x4000_0000, COMMAND_OFFSET, 4), Ok(0));
}

#[test]
fn unaligned_flash_register_access() {
    let mut fc = fresh();
    assert_eq!(fc.mmio_read(0x4000_0000, 0x2, 4), Err(EmuError::UnalignedAccess));
    assert_eq!(fc.mmio_write(0x4000_0000, ADDR_OFFSET, 2, 1), Err(EmuError::UnalignedAccess));
    assert_eq!(fc.mmio_read(0x4000_0000, ADDR_OFFSET, 4), Ok(0));
}
