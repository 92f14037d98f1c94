use sh1107::bus::BusError;
use sh1107::bus::WriteIter;
use sh1107::sim::SimBus;

const ADDR: u8 = 0x3C;

#[test]
fn data_write_advances_along_the_page() {
    let mut bus = SimBus::new();
    bus.write_iter(ADDR, &vec![0x40, 10, 20, 30]).unwrap();
    assert_eq!(bus.ram_byte(0, 0), 10);
    assert_eq!(bus.ram_byte(0, 1), 20);
    assert_eq!(bus.ram_byte(0, 2), 30);
}

#[test]
fn column_mode_advances_down_the_pages() {
    let mut bus = SimBus::new();
    // Switch to column addressing, then write three bytes.
    bus.write_iter(ADDR, &vec![0x00, 0x21]).unwrap();
    bus.write_iter(ADDR, &vec![0x40, 5, 6, 7]).unwrap();
    assert_eq!(bus.ram_byte(0, 0), 5);
    assert_eq!(bus.ram_byte(1, 0), 6);
    assert_eq!(bus.ram_byte(2, 0), 7);
}

#[test]
fn two_byte_commands_consume_their_argument() {
    let mut bus = SimBus::new();
    // Contrast 0xB3 must not be mistaken for a page address command.
    bus.write_iter(ADDR, &vec![0x00, 0x81, 0xB3]).unwrap();
    bus.write_iter(ADDR, &vec![0x40, 99]).unwrap();
    // The cursor stayed at page 0.
    assert_eq!(bus.ram_byte(0, 0), 99);
}

#[test]
fn writes_past_the_ram_edge_are_dropped() {
    let mut bus = SimBus::new();
    // Position at the last column and write two bytes: the second falls
    // off the edge and lands nowhere.
    bus.write_iter(ADDR, &vec![0x00, 0x0F, 0x17]).unwrap();
    bus.write_iter(ADDR, &vec![0x40, 1, 2]).unwrap();
    assert_eq!(bus.ram_byte(0, 127), 1);
    for col in 0..127u8 {
        assert_eq!(bus.ram_byte(0, col), 0);
    }
    for col in 0..128u8 {
        assert_eq!(bus.ram_byte(1, col), 0);
    }
}

#[test]
fn reads_past_the_ram_edge_return_zeroes() {
    let mut bus = SimBus::new();
    bus.write_iter(ADDR, &vec![0x40, 0xAB]).unwrap();
    // Back to the last column, read two bytes.
    bus.write_iter(ADDR, &vec![0x00, 0x0F, 0x17]).unwrap();
    let mut buf = vec![0xEE, 0xEE];
    bus.write_read(ADDR, &vec![0x40], &mut buf).unwrap();
    assert_eq!(buf, vec![0, 0]);
}

#[test]
fn injected_failure_consumes_itself() {
    let mut bus = SimBus::new();
    bus.inject_failure(BusError::Abort);
    let data = vec![0x40, 1];
    assert_eq!(bus.write_iter(ADDR, &data), Err(BusError::Abort));
    assert_eq!(bus.txn_count(), 0);
    assert_eq!(bus.write_iter(ADDR, &data), Ok(()));
    assert_eq!(bus.txn_count(), 1);
}

#[test]
fn status_reads_report_idle() {
    let mut bus = SimBus::new();
    let mut buf = vec![0xFF];
    bus.write_read(ADDR, &vec![0x80], &mut buf).unwrap();
    assert_eq!(buf, vec![0x00]);
}
