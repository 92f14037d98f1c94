use sh1107::bus::BusError;
use sh1107::session::Destination;
use sh1107::session::Display;
use sh1107::sim::SimBus;
use sh1107::DisplayState;

const ADDR: u8 = 0x3C;

const INIT_BYTES: [u8; 22] = [
    0x00, 0xAE, 0xD5, 0x51, 0xA8, 0x3F, 0xD3, 0x60, 0xDC, 0x00, 0xA0, 0xC0, 0xD9, 0x22, 0xDB,
    0x35, 0xAD, 0x8F, 0x81, 0x80, 0xA4, 0xA6,
];

fn frame_pattern() -> Vec<u8> {
    (0..1024u32).map(|i| ((i * 7 + 3) % 256) as u8).collect()
}

#[test]
fn new_runs_the_power_on_sequence() {
    let d = Display::new(SimBus::new(), ADDR).unwrap();
    let bus = d.release();
    assert_eq!(bus.txn_count(), 1);
    assert_eq!(bus.txn_addr(0), ADDR);
    assert_eq!(bus.txn_sent(0), INIT_BYTES.to_vec());
}

#[test]
fn new_hands_the_bus_back_on_failure() {
    let mut bus = SimBus::new();
    bus.inject_failure(BusError::ArbitrationLoss);
    let (bus, e) = Display::new(bus, ADDR).unwrap_err();
    assert_eq!(e, BusError::ArbitrationLoss);
    // The returned handle saw nothing recorded and is usable again.
    assert_eq!(bus.txn_count(), 0);
    let d = Display::new(bus, ADDR).unwrap();
    assert_eq!(d.release().txn_count(), 1);
}

#[test]
fn set_state_bytes() {
    let mut d = Display::new(SimBus::new(), ADDR).unwrap();
    d.set_state(DisplayState::On).unwrap();
    d.set_state(DisplayState::Off).unwrap();
    let bus = d.release();
    assert_eq!(bus.txn_sent(1), vec![0x00, 0xAF]);
    assert_eq!(bus.txn_sent(2), vec![0x00, 0xAE]);
}

#[test]
fn set_start_line_and_contrast_bytes() {
    let mut d = Display::new(SimBus::new(), ADDR).unwrap();
    d.set_start_line(17).unwrap();
    d.set_contrast(200).unwrap();
    let bus = d.release();
    assert_eq!(bus.txn_sent(1), vec![0x00, 0xDC, 17]);
    assert_eq!(bus.txn_sent(2), vec![0x00, 0x81, 200]);
}

#[test]
fn flip_horizontal_bytes() {
    let mut d = Display::new(SimBus::new(), ADDR).unwrap();
    d.flip_horizontal(true).unwrap();
    d.flip_horizontal(false).unwrap();
    let bus = d.release();
    assert_eq!(bus.txn_sent(1), vec![0x00, 0xC8, 0xD3, 32]);
    assert_eq!(bus.txn_sent(2), vec![0x00, 0xC0, 0xD3, 96]);
}

#[test]
fn flip_vertical_bytes() {
    let mut d = Display::new(SimBus::new(), ADDR).unwrap();
    d.flip_vertical(true).unwrap();
    let bus = d.release();
    assert_eq!(bus.txn_sent(1), vec![0x00, 0xA1]);
}

#[test]
fn write_frame_by_page_lands_in_ram() {
    let frame = frame_pattern();
    let mut d = Display::new(SimBus::new(), ADDR).unwrap();
    d.write_frame_by_page(Destination::Frame1, &frame).unwrap();
    let bus = d.release();
    // One mode selection plus one transaction per page.
    assert_eq!(bus.txn_count(), 1 + 1 + 16);
    assert_eq!(bus.txn_sent(1), vec![0x00, 0x20]);
    for page in 0..16u8 {
        for col in 0..64u8 {
            assert_eq!(
                bus.ram_byte(page, col),
                frame[page as usize * 64 + col as usize],
                "page {} col {}",
                page,
                col
            );
        }
    }
}

#[test]
fn write_frame_by_page_second_frame_offsets_columns() {
    let frame = frame_pattern();
    let mut d = Display::new(SimBus::new(), ADDR).unwrap();
    d.write_frame_by_page(Destination::Frame2, &frame).unwrap();
    let bus = d.release();
    for page in 0..16u8 {
        for col in 0..64u8 {
            assert_eq!(
                bus.ram_byte(page, 64 + col),
                frame[page as usize * 64 + col as usize]
            );
        }
    }
}

#[test]
fn write_frame_by_column_lands_column_major() {
    let frame = frame_pattern();
    let mut d = Display::new(SimBus::new(), ADDR).unwrap();
    d.write_frame_by_column(Destination::Frame1, &frame).unwrap();
    let bus = d.release();
    assert_eq!(bus.txn_count(), 1 + 1 + 64);
    assert_eq!(bus.txn_sent(1), vec![0x00, 0x21]);
    for col in 0..64u8 {
        for page in 0..16u8 {
            assert_eq!(
                bus.ram_byte(page, col),
                frame[col as usize * 16 + page as usize],
                "page {} col {}",
                page,
                col
            );
        }
    }
}

#[test]
fn frame_round_trip_by_page() {
    let frame = frame_pattern();
    let mut d = Display::new(SimBus::new(), ADDR).unwrap();
    d.write_frame_by_page(Destination::Frame1, &frame).unwrap();
    let mut back = vec![0u8; 1024];
    d.read_frame(&mut back).unwrap();
    assert_eq!(back, frame);
}

#[test]
fn read_frame_positions_before_every_page() {
    let frame = frame_pattern();
    let mut d = Display::new(SimBus::new(), ADDR).unwrap();
    d.write_frame_by_page(Destination::Frame1, &frame).unwrap();
    let mut back = vec![0u8; 1024];
    d.read_frame(&mut back).unwrap();
    let bus = d.release();
    // init + (1 + 16) writes + 1 mode + 16 * (position + read)
    assert_eq!(bus.txn_count(), 18 + 1 + 32);
    // The first positioning transaction of the read.
    assert_eq!(bus.txn_sent(19), vec![0x00, 0x00, 0x10, 0xB0]);
    assert!(bus.txn_is_read(20));
    assert_eq!(bus.txn_received(20), frame[0..64].to_vec());
}

#[test]
fn is_busy_reports_idle_controller() {
    let mut d = Display::new(SimBus::new(), ADDR).unwrap();
    assert!(!d.is_busy().unwrap());
}

#[test]
fn wait_while_busy_returns_after_one_poll() {
    let mut d = Display::new(SimBus::new(), ADDR).unwrap();
    assert!(d.wait_while_busy(10).unwrap());
    let bus = d.release();
    assert_eq!(bus.txn_count(), 2);
    assert!(bus.txn_is_read(1));
}

#[test]
fn wait_while_busy_zero_budget_reports_not_idle() {
    let mut d = Display::new(SimBus::new(), ADDR).unwrap();
    assert!(!d.wait_while_busy(0).unwrap());
    assert_eq!(d.release().txn_count(), 1);
}

#[test]
fn wait_while_busy_zero_budget_cannot_fail() {
    let mut bus = SimBus::new();
    // Arm a failure for the transaction after the init.
    bus.inject_failure_after(1, BusError::Abort);
    let mut d = Display::new(bus, ADDR).unwrap();
    // A zero budget polls nothing, so the armed failure is not reached.
    assert!(!d.wait_while_busy(0).unwrap());
    // The next real poll hits it.
    assert_eq!(d.is_busy().unwrap_err(), BusError::Abort);
}

#[test]
fn release_yields_a_bus_usable_for_a_new_session() {
    let d = Display::new(SimBus::new(), ADDR).unwrap();
    let bus = d.release();
    // Constructing again needs no fresh board bring-up: the same handle
    // serves a second session.
    let d2 = Display::new(bus, ADDR).unwrap();
    let bus = d2.release();
    assert_eq!(bus.txn_count(), 2);
    assert_eq!(bus.txn_sent(1), INIT_BYTES.to_vec());
}

#[test]
fn error_during_frame_write_aborts_mid_sequence() {
    let frame = frame_pattern();
    let mut bus = SimBus::new();
    // Let the init, the mode selection and the first three page writes
    // through, then fail.
    bus.inject_failure_after(5, BusError::Abort);
    let mut d = Display::new(bus, ADDR).unwrap();
    let e = d.write_frame_by_page(Destination::Frame1, &frame).unwrap_err();
    assert_eq!(e, BusError::Abort);
    let bus = d.release();
    // init + mode + three completed pages; the aborted one left no record.
    assert_eq!(bus.txn_count(), 5);
}
