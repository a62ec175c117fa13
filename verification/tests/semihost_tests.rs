use moonbow::errors::EmuError;
use moonbow::semihost::{
    angel_report_exception, decode_call, pc_address, pc_thumb, sys_open, sys_write, thumb_step,
    LogWriter, SemiCall, StopAction, ADP_STOPPED_APPLICATION_EXIT,
    ADP_STOPPED_RUNTIME_ERROR_UNKNOWN, ANGEL_REPORT_EXCEPTION, FILENO_INVALID, FILENO_STDIO_MAGIC,
    SYS_OPEN, SYS_WRITE,
};

#[test]
fn open_console_returns_magic_descriptor() {
    assert_eq!(sys_open(b":tt"), Ok(FILENO_STDIO_MAGIC));
}

#[test]
fn open_any_other_name_fails() {
    assert_eq!(sys_open(b"log.txt"), Ok(FILENO_INVALID));
    assert_eq!(sys_open(b""), Ok(FILENO_INVALID));
    assert_eq!(sys_open(b":t"), Ok(FILENO_INVALID));
    assert_eq!(sys_open(b":ttx"), Ok(FILENO_INVALID));
}

#[test]
fn open_rejects_invalid_utf8() {
    assert_eq!(sys_open(&[0xff, 0xfe]), Err(EmuError::InvalidUtf8));
}

#[test]
fn console_write_appends_to_log_and_returns_zero() {
    let mut log = LogWriter::new();
    let r = sys_write(FILENO_STDIO_MAGIC, 3, b"hi\n", &mut log);
    assert_eq!(r, 0);
    assert_eq!(log.contents().as_slice(), b"hi\n");

    let r = sys_write(FILENO_STDIO_MAGIC, 5, b"there", &mut log);
    assert_eq!(r, 0);
    assert_eq!(log.contents().as_slice(), b"hi\nthere");
}

#[test]
fn other_descriptor_write_is_swallowed() {
    let mut log = LogWriter::new();
    let r = sys_write(7, 42, b"", &mut log);
    assert_eq!(r, 42);
    assert!(log.contents().is_empty());
}

#[test]
fn report_exception_outcomes() {
    assert_eq!(angel_report_exception(ADP_STOPPED_APPLICATION_EXIT), Ok(StopAction::Exit));
    assert_eq!(angel_report_exception(ADP_STOPPED_RUNTIME_ERROR_UNKNOWN), Ok(StopAction::Fail));
    assert_eq!(
        angel_report_exception(0x20022),
        Err(EmuError::UnsupportedException { reason: 0x20022 })
    );
}

#[test]
fn call_decoding() {
    assert_eq!(decode_call(SYS_OPEN), Ok(SemiCall::Open));
    assert_eq!(decode_call(SYS_WRITE), Ok(SemiCall::Write));
    assert_eq!(decode_call(ANGEL_REPORT_EXCEPTION), Ok(SemiCall::ReportException));
    assert_eq!(decode_call(0x02), Err(EmuError::UnsupportedSemihostingCall { call: 0x02 }));
}

#[test]
fn thumb_instruction_width() {
    // BKPT 0xAB: a 16-bit encoding.
    assert_eq!(thumb_step(0xBEAB), 2);
    // The first half of a 32-bit BL/BLX encoding.
    assert_eq!(thumb_step(0xF000), 4);
    assert_eq!(thumb_step(0xE800), 4);
    // 0xE7FE (b .) stays 16-bit: its top five bits are exactly 0x1C.
    assert_eq!(thumb_step(0xE7FE), 2);
}

#[test]
fn pc_thumb_bit() {
    assert_eq!(pc_address(0x0000_0101), 0x0000_0100);
    assert_eq!(pc_thumb(0x0000_0100), 0x0000_0101);
}
