use touch_sensor::reader::{register_read_plan, register_report, Direction, Transfer, TRANSFER_TIMEOUT_MS};

#[test]
fn read_plan_is_one_byte_write_then_one_byte_read() {
    let plan = register_read_plan(0x15, 0xA3);
    assert_eq!(plan.len(), 2);
    assert_eq!(plan[0].direction, Direction::Write);
    assert_eq!(plan[0].transfer.address, 0x15);
    assert_eq!(plan[0].transfer.len, 1);
    assert_eq!(plan[0].transfer.buffer, vec![0xA3]);
    assert_eq!(plan[0].timeout_ms, TRANSFER_TIMEOUT_MS);
    assert!(!plan[0].stop);
    assert_eq!(plan[1].direction, Direction::Read);
    assert_eq!(plan[1].transfer.address, 0x15);
    assert_eq!(plan[1].transfer.len, 1);
    assert_eq!(plan[1].transfer.buffer, vec![0x00]);
    assert_eq!(plan[1].timeout_ms, 1000);
    assert!(plan[1].stop);
}

#[test]
fn one_byte_transfer_length_matches_buffer() {
    let t = Transfer::one_byte(0x44, 0x8F);
    assert_eq!(t.address, 0x44);
    assert_eq!(t.len as usize, t.buffer.len());
    assert_eq!(t.buffer, vec![0x8F]);
}

#[test]
fn chip_id_read_reports_value_and_zero_codes() {
    let lines = register_report(0x15, 0, 0, 0xA3);
    assert_eq!(lines.len(), 3);
    assert_eq!(lines[0], "write 0x15, rc: 00\n");
    assert_eq!(lines[1], "read 0x15, rc: 00\n");
    assert_eq!(lines[2], "read value 0xa3\n");
    assert!(lines[2].contains("0xa3"));
}

#[test]
fn report_shows_failure_codes_without_stopping() {
    let lines = register_report(0x18, 5, 3, 0x00);
    assert_eq!(
        lines,
        vec![
            "write 0x18, rc: 05\n".to_string(),
            "read 0x18, rc: 03\n".to_string(),
            "read value 0x00\n".to_string(),
        ]
    );
}
