use esp_examples::rtc::{read_clock, register_write, BcdFault, ClockReading, DateTime, DS1307_ADDRESS};

#[test]
fn address_is_the_ds1307s() {
    assert_eq!(DS1307_ADDRESS, 0x68);
}

#[test]
fn register_write_encodes_bcd() {
    assert_eq!(register_write(0, 0), Ok([0, 0x00]));
    assert_eq!(register_write(1, 15), Ok([1, 0x15]));
    assert_eq!(register_write(2, 12), Ok([2, 0x12]));
    assert_eq!(register_write(6, 99), Ok([6, 0x99]));
}

#[test]
fn register_write_refuses_three_digits() {
    assert_eq!(register_write(0, 100), Err(BcdFault::Overflow));
    assert_eq!(register_write(3, 255), Err(BcdFault::Overflow));
}

#[test]
fn start_times_of_both_programs_encode() {
    let bare = DateTime { seconds: 0, minutes: 15, hours: 12, day: 1, month: 1, year: 4, day_of_week: 4 };
    let values = bare.register_values();
    assert_eq!(values, [0, 15, 12, 1, 4, 1, 4]);
    let idf: [u8; 7] = [0, 15, 12, 19, 2, 25, 3];
    let writes: Vec<[u8; 2]> = idf
        .iter()
        .enumerate()
        .map(|(i, v)| register_write(i as u8, *v).unwrap())
        .collect();
    assert_eq!(
        writes,
        vec![[0, 0x00], [1, 0x15], [2, 0x12], [3, 0x19], [4, 0x02], [5, 0x25], [6, 0x03]]
    );
}

#[test]
fn read_clock_decodes_hours_minutes_seconds() {
    let regs = [0x30, 0x15, 0x12, 0x03, 0x19, 0x02, 0x25];
    assert_eq!(read_clock(&regs), Ok(ClockReading { hours: 12, minutes: 15, seconds: 30 }));
}

#[test]
fn read_clock_reports_bad_low_nibble() {
    let regs = [0x3a, 0x15, 0x12, 0, 0, 0, 0];
    assert_eq!(read_clock(&regs), Err(BcdFault::InvalidDigit(10)));
}

#[test]
fn read_clock_reports_bad_high_nibble_first() {
    let regs = [0x00, 0xbc, 0x12, 0, 0, 0, 0];
    assert_eq!(read_clock(&regs), Err(BcdFault::InvalidDigit(11)));
}

#[test]
fn read_clock_checks_seconds_before_hours() {
    let regs = [0xf0, 0x00, 0xe0, 0, 0, 0, 0];
    assert_eq!(read_clock(&regs), Err(BcdFault::InvalidDigit(15)));
}

#[test]
fn written_time_reads_back() {
    let writes = [register_write(0, 45).unwrap(), register_write(1, 7).unwrap(), register_write(2, 23).unwrap()];
    let regs = [writes[0][1], writes[1][1], writes[2][1], 0, 0, 0, 0];
    assert_eq!(read_clock(&regs), Ok(ClockReading { hours: 23, minutes: 7, seconds: 45 }));
}
