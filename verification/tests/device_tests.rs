use moonbow::device::{CpuModel, Device, PeripheralKind};
use moonbow::errors::EmuError;
use moonbow::flash::{FlashController, ADDR_OFFSET, CMD_PROGRAM, COMMAND_OFFSET, DATA_OFFSET};
use moonbow::peripherals::{Sram, SCS_BASE, VTOR_OFFSET};

fn demo_device() -> Device {
    let peripherals = vec![
        PeripheralKind::Sram(Sram::new(0x2000_0000, 4 * 1024, None)),
        PeripheralKind::Flash(FlashController::new(0x0000_0000, 1024, 64, 0x0400_0000, None)),
    ];
    Device::new(CpuModel::M0Plus, peripherals)
}

#[test]
fn unmapped_base_fails_and_changes_nothing() {
    let mut dev = demo_device();
    assert_eq!(
        dev.mmio_read(0x5000_0000, 0, 4),
        Err(EmuError::NoPeripheralAtAddress { base: 0x5000_0000 })
    );
    assert_eq!(
        dev.mmio_write(0x5000_0000, 0, 4, 1),
        Err(EmuError::NoPeripheralAtAddress { base: 0x5000_0000 })
    );
    // Peripheral state is untouched: the flash registers still read reset
    // values and the array is still erased.
    assert_eq!(dev.mmio_read(0x0400_0000, ADDR_OFFSET, 4), Ok(0));
    match &dev.peripherals[1] {
        PeripheralKind::Flash(fc) => assert!(fc.data.iter().all(|b| *b == 0xFF)),
        _ => panic!("expected the flash controller"),
    }
}

#[test]
fn model_mandated_scs_is_registered() {
    let mut dev = demo_device();
    assert_eq!(dev.mmio_read(SCS_BASE, VTOR_OFFSET, 4), Ok(0));
    assert_eq!(dev.mmio_write(SCS_BASE, VTOR_OFFSET, 4, 0x1000), Ok(()));
    assert_eq!(dev.mmio_read(SCS_BASE, VTOR_OFFSET, 4), Ok(0x1000));
}

#[test]
fn dispatch_reaches_the_flash_controller() {
    let mut dev = demo_device();
    dev.mmio_write(0x0400_0000, DATA_OFFSET, 4, 0x0F0F_0F0F).unwrap();
    dev.mmio_write(0x0400_0000, ADDR_OFFSET, 4, 0x40).unwrap();
    dev.mmio_write(0x0400_0000, COMMAND_OFFSET, 4, CMD_PROGRAM).unwrap();
    match &dev.peripherals[1] {
        PeripheralKind::Flash(fc) => {
            assert_eq!(&fc.data[0x40..0x44], &[0x0F, 0x0F, 0x0F, 0x0F]);
        },
        _ => panic!("expected the flash controller"),
    }
}

#[test]
fn load_segment_writes_backing_memory() {
    let mut dev = demo_device();
    assert_eq!(dev.load_segment(0x2000_0010, b"hello"), Ok(()));
    match &dev.peripherals[0] {
        PeripheralKind::Sram(s) => assert_eq!(&s.data[0x10..0x15], b"hello"),
        _ => panic!("expected the SRAM"),
    }
    assert_eq!(dev.load_segment(0x9000_0000, b"x"), Err(EmuError::UnmappedMemoryAccess));
}

/// A minimal 32-bit little-endian ELF image: one PT_LOAD segment carrying
/// `payload` to physical address `paddr`.
fn tiny_elf(paddr: u32, payload: &[u8]) -> Vec<u8> {
    let mut img = vec![0u8; 84];
    img[0..4].copy_from_slice(&[0x7f, 0x45, 0x4c, 0x46]);
    img[4] = 1; // 32-bit
    img[5] = 1; // little-endian
    img[28..32].copy_from_slice(&52u32.to_le_bytes()); // e_phoff
    img[42..44].copy_from_slice(&32u16.to_le_bytes()); // e_phentsize
    img[44..46].copy_from_slice(&1u16.to_le_bytes()); // e_phnum
    let off = img.len() as u32;
    img[52..56].copy_from_slice(&1u32.to_le_bytes()); // p_type = PT_LOAD
    img[56..60].copy_from_slice(&off.to_le_bytes()); // p_offset
    img[64..68].copy_from_slice(&paddr.to_le_bytes()); // p_paddr
    img[68..72].copy_from_slice(&(payload.len() as u32).to_le_bytes()); // p_filesz
    img.extend_from_slice(payload);
    img
}

#[test]
fn load_elf_places_pt_load_segments() {
    let mut dev = demo_device();
    let img = tiny_elf(0x2000_0100, b"firmware");
    assert_eq!(dev.load_elf(&img), Ok(()));
    match &dev.peripherals[0] {
        PeripheralKind::Sram(s) => assert_eq!(&s.data[0x100..0x108], b"firmware"),
        _ => panic!("expected the SRAM"),
    }
}

#[test]
fn load_elf_rejects_garbage() {
    let mut dev = demo_device();
    assert_eq!(dev.load_elf(b"not an elf"), Err(EmuError::MalformedElf));
}

#[test]
fn load_ihex_places_segments() {
    let mut dev = demo_device();
    // One data record of four bytes at 0x2000_0000 (via an extended linear
    // address record), then end of file.
    let text = ":020000042000DA\n:0400000001020304F2\n:00000001FF\n";
    assert_eq!(dev.load_ihex(text.as_bytes()), Ok(()));
    match &dev.peripherals[0] {
        PeripheralKind::Sram(s) => assert_eq!(&s.data[0..4], &[1, 2, 3, 4]),
        _ => panic!("expected the SRAM"),
    }
}

#[test]
fn a_later_peripheral_overrides_an_earlier_base() {
    // Two register blocks registered at the same base: the map keeps the
    // later registration, as rebuilding a hash map entry would.
    let peripherals = vec![
        PeripheralKind::Flash(FlashController::new(0x0000_0000, 1024, 4, 0x0400_0000, Some("A"))),
        PeripheralKind::Flash(FlashController::new(0x0001_0000, 1024, 4, 0x0400_0000, Some("B"))),
    ];
    let mut dev = Device::new(CpuModel::M0Plus, peripherals);
    dev.mmio_write(0x0400_0000, ADDR_OFFSET, 4, 0x7).unwrap();
    match (&dev.peripherals[0], &dev.peripherals[1]) {
        (PeripheralKind::Flash(a), PeripheralKind::Flash(b)) => {
            assert_eq!(dev.mmio_read(0x0400_0000, ADDR_OFFSET, 4), Ok(0x7));
            assert_eq!(b.region_name, "B");
            assert_eq!(a.bank.entries[1].value, 0);
            assert_eq!(b.bank.entries[1].value, 0x7);
        },
        _ => panic!("expected two flash controllers"),
    }
}
