use moonbow::nanoboot::{
    check_firmware, check_update, crc32, ensure, install_plain, process_update, NanoHal,
    NanoReason, UpdateInfo, UPDATE_TYPE_PLAIN,
};

/// A HAL double that collects the programmed bytes.
#[derive(Default)]
struct RecordingHal {
    programmed: Vec<u8>,
    started: bool,
    finished: bool,
    fail_writes: bool,
}

impl NanoHal for RecordingHal {
    fn update_address(&mut self) -> Option<usize> {
        None
    }

    fn update_clear(&mut self) {}

    fn program_start(&mut self) -> Result<(), NanoReason> {
        self.programmed.clear();
        self.started = true;
        Ok(())
    }

    fn program_write(&mut self, value: u8) -> Result<(), NanoReason> {
        if self.fail_writes {
            return Err(NanoReason::HalError(2));
        }
        self.programmed.push(value);
        Ok(())
    }

    fn program_read(&mut self, _offset: usize) -> Result<u8, NanoReason> {
        Err(NanoReason::HalError(1))
    }

    fn program_finish(&mut self) -> Result<(), NanoReason> {
        self.finished = true;
        Ok(())
    }
}

/// A firmware area: image bytes, the size word patched in at `size_off`,
/// and the CRC right after the image.
fn firmware_area(total: usize, size_off: usize, image_len: usize) -> Vec<u8> {
    let mut fw = vec![0x55u8; total];
    fw[size_off..size_off + 4].copy_from_slice(&(image_len as u32).to_le_bytes());
    let crc = crc32(&fw[..image_len]);
    fw[image_len..image_len + 4].copy_from_slice(&crc.to_le_bytes());
    fw
}

#[test]
fn crc32_matches_the_iso_hdlc_check_value() {
    // The standard check input of CRC-32/ISO-HDLC.
    assert_eq!(crc32(b"123456789"), 0xCBF4_3926);
    assert_eq!(crc32(b""), 0);
}

#[test]
fn valid_firmware_passes() {
    let fw = firmware_area(128, 0x30, 64);
    assert_eq!(check_firmware(&fw, 0x30), Ok(()));
}

#[test]
fn corrupt_firmware_fails_crc() {
    let mut fw = firmware_area(128, 0x30, 64);
    fw[0] ^= 1;
    assert_eq!(check_firmware(&fw, 0x30), Err(NanoReason::FwCrcMismatch));
}

#[test]
fn bad_size_word_fails() {
    let mut fw = firmware_area(128, 0x30, 64);
    fw[0x30..0x34].copy_from_slice(&1000u32.to_le_bytes()); // image would not fit
    assert_eq!(check_firmware(&fw, 0x30), Err(NanoReason::FwSizeInvalid));
    fw[0x30..0x34].copy_from_slice(&61u32.to_le_bytes()); // unaligned size
    assert_eq!(check_firmware(&fw, 0x30), Err(NanoReason::FwSizeInvalid));
    assert_eq!(check_firmware(&fw, 0x31), Err(NanoReason::FwSizeInvalid)); // unaligned offset
    assert_eq!(check_firmware(b"", 0), Err(NanoReason::FwSizeInvalid)); // empty area
}

/// Build an update blob inside a firmware area: header at `off`, payload
/// after it.
fn area_with_update(total: usize, off: usize, uptype: u32, payload: &[u8]) -> Vec<u8> {
    let mut fw = vec![0xEEu8; total];
    let upsize = (16 + payload.len()) as u32;
    fw[off + 4..off + 8].copy_from_slice(&upsize.to_le_bytes());
    fw[off + 8..off + 12].copy_from_slice(&uptype.to_le_bytes());
    fw[off + 12..off + 16].copy_from_slice(&(payload.len() as u32).to_le_bytes());
    fw[off + 16..off + 16 + payload.len()].copy_from_slice(payload);
    let crc = crc32(&fw[off + 4..off + upsize as usize]);
    fw[off..off + 4].copy_from_slice(&crc.to_le_bytes());
    fw
}

#[test]
fn check_update_finds_a_valid_update() {
    let fw_start = 0x1000;
    let fw = area_with_update(256, 0x80, UPDATE_TYPE_PLAIN, b"new firmware");
    let (info, doff, dlen) = check_update(&fw, fw_start, fw_start + 0x80).unwrap();
    assert_eq!(info.uptype, UPDATE_TYPE_PLAIN);
    assert_eq!(info.fwsize, 12);
    assert_eq!(&fw[doff..doff + dlen], b"new firmware");
}

#[test]
fn check_update_rejects_a_bad_checksum() {
    let fw_start = 0x1000;
    let mut fw = area_with_update(256, 0x80, UPDATE_TYPE_PLAIN, b"new firmware");
    fw[0x80 + 20] ^= 0xFF;
    assert!(check_update(&fw, fw_start, fw_start + 0x80).is_none());
    assert!(check_update(&fw, fw_start, fw_start - 1).is_none());
    assert!(check_update(&fw, fw_start, fw_start + 0x81).is_none());
}

#[test]
fn install_plain_streams_every_byte() {
    let mut hal = RecordingHal::default();
    let info = UpdateInfo { checksum: 0, upsize: 24, uptype: UPDATE_TYPE_PLAIN, fwsize: 8 };
    let r = install_plain(&mut hal, info, b"12345678", 0, 1024, 0x8000);
    assert_eq!(r, Some(()));
    assert!(hal.started && hal.finished);
    assert_eq!(hal.programmed, b"12345678");
}

#[test]
fn install_plain_checks_sizes() {
    let mut hal = RecordingHal::default();
    let info = UpdateInfo { checksum: 0, upsize: 24, uptype: UPDATE_TYPE_PLAIN, fwsize: 9 };
    assert_eq!(install_plain(&mut hal, info, b"12345678", 0, 1024, 0x8000), None);
    assert!(!hal.started);

    // The page-rounded image would overlap the update itself.
    let info = UpdateInfo { checksum: 0, upsize: 24, uptype: UPDATE_TYPE_PLAIN, fwsize: 8 };
    assert_eq!(install_plain(&mut hal, info, b"12345678", 0, 1024, 512), None);
}

#[test]
fn install_plain_stops_on_a_hal_error() {
    let mut hal = RecordingHal { fail_writes: true, ..Default::default() };
    let info = UpdateInfo { checksum: 0, upsize: 24, uptype: UPDATE_TYPE_PLAIN, fwsize: 8 };
    assert_eq!(install_plain(&mut hal, info, b"12345678", 0, 1024, 0x8000), None);
}

#[test]
fn process_update_installs_a_plain_update() {
    let fw_start = 0x4000;
    let fw = area_with_update(2048, 0x400, UPDATE_TYPE_PLAIN, b"fresh");
    let mut hal = RecordingHal::default();
    let found = process_update(&mut hal, &fw, Some(fw_start + 0x400), fw_start, 1024);
    assert!(found);
    assert_eq!(hal.programmed, b"fresh");

    let mut hal = RecordingHal::default();
    assert!(!process_update(&mut hal, &fw, None, fw_start, 1024));
    assert!(!hal.started);
}

#[test]
fn process_update_skips_unknown_types() {
    let fw_start = 0x4000;
    let fw = area_with_update(2048, 0x400, 7, b"mystery");
    let mut hal = RecordingHal::default();
    let found = process_update(&mut hal, &fw, Some(fw_start + 0x400), fw_start, 1024);
    assert!(found);
    assert!(!hal.started);
}

#[test]
fn ensure_mirrors_its_condition() {
    assert_eq!(ensure(true), Some(()));
    assert_eq!(ensure(false), None);
}
