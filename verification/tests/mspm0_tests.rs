use moonbow::mspm0::{
    abort_values, blank_verify, blank_verify_result, erase_page, pass_check, unprotect_sector,
    update_clear, update_find, write_word, Blinker, BlinkStep, FlashCmd, FlashOp, FlashOpSize,
    HalErr, MspM0CHal, BL_DATA_START,
};
use moonbow::nanoboot::NanoReason;

#[test]
fn pass_check_reads_the_status_bit() {
    assert_eq!(pass_check(true), Ok(()));
    assert_eq!(pass_check(false), Err(NanoReason::HalError(2)));
}

#[test]
fn blank_verify_operations_and_result() {
    let ops = blank_verify(0x1200);
    assert_eq!(
        ops,
        vec![
            FlashOp::SetCommand { command: FlashCmd::BlankVerify, size: FlashOpSize::OneWord },
            FlashOp::SetAddress(0x1200),
            FlashOp::Execute,
        ]
    );
    assert_eq!(blank_verify_result(true, false), Ok(true));
    assert_eq!(blank_verify_result(true, true), Ok(false));
    assert_eq!(blank_verify_result(false, false), Err(NanoReason::HalError(2)));
}

#[test]
fn unprotect_sector_masks_the_target_page() {
    assert_eq!(unprotect_sector(0x0800), FlashOp::SetProtectMask(!(1u32 << 2)));
    assert_eq!(unprotect_sector(0x0BFF), FlashOp::SetProtectMask(!(1u32 << 2)));
}

#[test]
fn write_word_operation_sequence() {
    let ops = write_word(0x1000, 0x1122_3344_5566_7788);
    assert_eq!(
        ops,
        vec![
            FlashOp::SetCommand { command: FlashCmd::Program, size: FlashOpSize::OneWord },
            FlashOp::SetAddress(0x1000),
            FlashOp::SetData { index: 0, value: 0x5566_7788 },
            FlashOp::SetData { index: 1, value: 0x1122_3344 },
            FlashOp::SetProtectMask(!(1u32 << 4)),
            FlashOp::Execute,
        ]
    );
}

#[test]
fn erase_page_operation_sequence() {
    let ops = erase_page(0x0400);
    assert_eq!(
        ops,
        vec![
            FlashOp::SetCommand { command: FlashCmd::Erase, size: FlashOpSize::Sector },
            FlashOp::SetAddress(0x0400),
            FlashOp::SetProtectMask(!(1u32 << 1)),
            FlashOp::Execute,
        ]
    );
}

#[test]
fn update_scan_outcomes() {
    // An entirely blank page holds no update.
    assert_eq!(update_find(&[true, true, true, true]), None);
    // A used word whose partner is blank is the pending update.
    assert_eq!(update_find(&[false, true, true, true]), Some(0));
    // A consumed pair is skipped.
    assert_eq!(update_find(&[false, false, false, true]), Some(2));
    assert_eq!(update_find(&[false, false, true, true]), None);
    // A trailing odd word never matches.
    assert_eq!(update_find(&[false]), None);
    assert_eq!(update_find(&[]), None);
}

#[test]
fn update_clear_programs_the_partner_word() {
    let ops = update_clear(&[false, false, false, true]).unwrap();
    let addr = BL_DATA_START + 3 * 8;
    assert_eq!(
        ops,
        vec![
            FlashOp::SetCommand { command: FlashCmd::Program, size: FlashOpSize::OneWord },
            FlashOp::SetAddress(addr),
            FlashOp::SetData { index: 0, value: 0 },
            FlashOp::SetData { index: 1, value: 0 },
            FlashOp::SetProtectMask(!(1u32 << (addr / 1024))),
            FlashOp::Execute,
        ]
    );
    assert!(update_clear(&[true, true]).is_none());
}

#[test]
fn blink_pattern_sequence() {
    let b = Blinker::new(22, 6_000_000);
    let pulse = |v: &mut Vec<BlinkStep>| {
        v.push(BlinkStep::GpioClear(22));
        v.push(BlinkStep::Delay(1));
        v.push(BlinkStep::GpioSet(22));
        v.push(BlinkStep::Delay(1));
    };
    // Value 0x12: low nibble 2 -> three pulses, then nibble 1 -> two pulses.
    let mut expected = vec![
        BlinkStep::GpioClear(22),
        BlinkStep::Delay(4),
        BlinkStep::GpioSet(22),
        BlinkStep::Delay(4),
    ];
    for _ in 0..3 {
        pulse(&mut expected);
    }
    expected.push(BlinkStep::Delay(2));
    for _ in 0..2 {
        pulse(&mut expected);
    }
    expected.push(BlinkStep::Delay(2));
    expected.push(BlinkStep::Delay(4));
    assert_eq!(b.pattern(&[0x12]), expected);
}

#[test]
fn blink_zero_is_one_pulse() {
    let b = Blinker::new(3, 1);
    assert_eq!(
        b.blink(0),
        vec![
            BlinkStep::GpioClear(3),
            BlinkStep::Delay(1),
            BlinkStep::GpioSet(3),
            BlinkStep::Delay(1),
            BlinkStep::Delay(2),
            BlinkStep::Delay(4),
        ]
    );
}

#[test]
fn abort_value_encoding() {
    assert_eq!(abort_values(NanoReason::HalError(9)), (0, 9));
    assert_eq!(abort_values(NanoReason::FwSizeInvalid), (1, 0));
    assert_eq!(abort_values(NanoReason::FwCrcMismatch), (1, 1));
}

#[test]
fn hal_error_codes() {
    assert_eq!(HalErr::Panic.code(), 0);
    assert_eq!(HalErr::NotImplemented.code(), 1);
    assert_eq!(HalErr::FlashError.code(), 2);
    assert_eq!(NanoReason::from(HalErr::FlashError), NanoReason::HalError(2));
}

#[test]
fn programming_state_machine_commits_full_words() {
    // Bytes gather least-significant first by OR; starting from the default
    // zeroed buffer makes the merged word visible.
    let mut hal = MspM0CHal::default();
    for b in 0u8..7 {
        hal.program_add_byte(b);
        let ops = hal.program_commit_word(false);
        assert!(ops.is_empty());
    }
    hal.program_add_byte(7);
    let ops = hal.program_commit_word(false);
    // Address 0 starts a page: erase first, then the word write.
    assert_eq!(ops[0], FlashOp::SetCommand { command: FlashCmd::Erase, size: FlashOpSize::Sector });
    assert_eq!(ops[4], FlashOp::SetCommand {
        command: FlashCmd::Program,
        size: FlashOpSize::OneWord
    });
    assert_eq!(ops[6], FlashOp::SetData { index: 0, value: 0x0302_0100 });
    assert_eq!(ops[7], FlashOp::SetData { index: 1, value: 0x0706_0504 });
    assert_eq!(hal.prog.address, 8);
    assert_eq!(hal.prog.count, 0);

    // A partial word is committed only when forced; the buffer reset leaves
    // the unfilled lanes all-ones, so the flash keeps them erased.
    hal.program_add_byte(0xAB);
    assert!(hal.program_commit_word(false).is_empty());
    let ops = hal.program_commit_word(true);
    assert_eq!(ops.len(), 6); // address 8 is no page boundary: no erase
    assert_eq!(ops[2], FlashOp::SetData { index: 0, value: 0xFFFF_FFFF });
    assert_eq!(ops[3], FlashOp::SetData { index: 1, value: 0xFFFF_FFFF });
}

#[test]
fn program_start_resets_the_word_buffer_to_all_ones() {
    let mut hal = MspM0CHal::default();
    hal.program_start();
    assert_eq!(hal.prog.address, 0);
    assert_eq!(hal.prog.buffer, u64::MAX);
    assert_eq!(hal.prog.count, 0);
}
