use sh1107::bus::BusError;
use sh1107::session::Destination;
use sh1107::sim::SimBus;
use sh1107::tracker::compute_runs;
use sh1107::tracker::BufferedDisplay;
use sh1107::tracker::Pixel;
use sh1107::tracker::Run;

const ADDR: u8 = 0x3C;

fn mask_with_dirty(cols: &[usize]) -> Vec<u8> {
    let mut mask = vec![0u8; 1024];
    for &c in cols {
        mask[c] = 0xFF;
    }
    mask
}

#[test]
fn coalescing_folds_gap_of_seven() {
    // Dirty bytes at {0,1,2,10,11}: the gap of 7 clean bytes (3..=9)
    // folds in, one run spans [0, 11].
    let mask = mask_with_dirty(&[0, 1, 2, 10, 11]);
    let runs = compute_runs(&mask);
    assert_eq!(runs, vec![Run { page: 0, col: 0, len: 12 }]);
}

#[test]
fn coalescing_splits_gap_of_eight() {
    // Dirty bytes at {0, 9}: the gap of 8 clean bytes splits the runs.
    let mask = mask_with_dirty(&[0, 9]);
    let runs = compute_runs(&mask);
    assert_eq!(
        runs,
        vec![
            Run { page: 0, col: 0, len: 1 },
            Run { page: 0, col: 9, len: 1 },
        ]
    );
}

#[test]
fn coalescing_gap_of_seven_exactly_folds() {
    // Dirty at {0, 8}: gap of 7 clean bytes, still one run.
    let mask = mask_with_dirty(&[0, 8]);
    let runs = compute_runs(&mask);
    assert_eq!(runs, vec![Run { page: 0, col: 0, len: 9 }]);
}

#[test]
fn runs_never_cross_page_boundaries() {
    // Dirty at the last byte of page 0 and the first of page 1.
    let mask = mask_with_dirty(&[63, 64]);
    let runs = compute_runs(&mask);
    assert_eq!(
        runs,
        vec![
            Run { page: 0, col: 63, len: 1 },
            Run { page: 1, col: 0, len: 1 },
        ]
    );
}

#[test]
fn full_page_is_one_run() {
    let cols: Vec<usize> = (128..192).collect();
    let mask = mask_with_dirty(&cols);
    let runs = compute_runs(&mask);
    assert_eq!(runs, vec![Run { page: 2, col: 0, len: 64 }]);
}

#[test]
fn clean_mask_has_no_runs() {
    let mask = vec![0u8; 1024];
    assert_eq!(compute_runs(&mask), vec![]);
}

#[test]
fn trailing_clean_bytes_do_not_extend_a_run() {
    let mask = mask_with_dirty(&[5, 6]);
    let runs = compute_runs(&mask);
    assert_eq!(runs, vec![Run { page: 0, col: 5, len: 2 }]);
}

#[test]
fn new_starts_all_dirty_and_first_flush_sends_everything() {
    let mut bd = BufferedDisplay::new(SimBus::new(), ADDR).unwrap();
    bd.flush().unwrap();
    let bus = bd.release();
    // init + mode + one full-width run per page
    assert_eq!(bus.txn_count(), 1 + 1 + 16);
    // Every RAM byte of the visible frame is now the blank bitmap.
    for page in 0..16u8 {
        for col in 0..64u8 {
            assert_eq!(bus.ram_byte(page, col), 0);
        }
    }
}

#[test]
fn flush_twice_without_drawing_writes_nothing() {
    let mut bd = BufferedDisplay::new(SimBus::new(), ADDR).unwrap();
    bd.flush().unwrap();
    let count_after_first = {
        // No bus accessor through the tracker: count via a probe flush.
        // The second flush must add no transactions at all.
        bd.flush().unwrap();
        let bus = bd.release();
        bus.txn_count()
    };
    assert_eq!(count_after_first, 1 + 1 + 16);
}

#[test]
fn draw_pixel_sets_bit_and_flush_sends_one_run() {
    let mut bd = BufferedDisplay::new(SimBus::new(), ADDR).unwrap();
    bd.flush().unwrap();
    // Pixel (3, 10): page 1 (rows 8..16), column 3, bit 2 of the byte.
    bd.draw_pixel(3, 10, true);
    bd.flush().unwrap();
    let bus = bd.release();
    assert_eq!(bus.txn_count(), 18 + 2);
    assert_eq!(
        bus.txn_sent(19),
        vec![0x80, 0x03, 0x80, 0x10, 0x80, 0xB1, 0x40, 0b0000_0100]
    );
    assert_eq!(bus.ram_byte(1, 3), 0b0000_0100);
}

#[test]
fn draw_pixel_off_clears_bit() {
    let mut bd = BufferedDisplay::new(SimBus::new(), ADDR).unwrap();
    bd.flush().unwrap();
    bd.draw_pixel(0, 0, true);
    bd.draw_pixel(0, 1, true);
    bd.flush().unwrap();
    bd.draw_pixel(0, 0, false);
    bd.flush().unwrap();
    let bus = bd.release();
    assert_eq!(bus.ram_byte(0, 0), 0b0000_0010);
}

#[test]
fn draw_outside_the_panel_changes_nothing() {
    let mut bd = BufferedDisplay::new(SimBus::new(), ADDR).unwrap();
    bd.flush().unwrap();
    bd.draw_pixel(-1, 0, true);
    bd.draw_pixel(0, -1, true);
    bd.draw_pixel(64, 0, true);
    bd.draw_pixel(0, 128, true);
    bd.flush().unwrap();
    let bus = bd.release();
    assert_eq!(bus.txn_count(), 18);
}

#[test]
fn draw_iter_draws_in_order() {
    let mut bd = BufferedDisplay::new(SimBus::new(), ADDR).unwrap();
    bd.flush().unwrap();
    let pixels = vec![
        Pixel { x: 0, y: 0, on: true },
        Pixel { x: 0, y: 1, on: true },
        Pixel { x: 0, y: 0, on: false },
    ];
    bd.draw_iter(&pixels);
    bd.flush().unwrap();
    let bus = bd.release();
    assert_eq!(bus.ram_byte(0, 0), 0b0000_0010);
}

#[test]
fn flush_coalesces_like_the_scenario() {
    let mut bd = BufferedDisplay::new(SimBus::new(), ADDR).unwrap();
    bd.flush().unwrap();
    for &c in &[0, 1, 2, 10, 11] {
        bd.draw_pixel(c, 0, true);
    }
    bd.flush().unwrap();
    let bus = bd.release();
    // One mode selection, one run spanning [0, 11]: 12 data bytes.
    assert_eq!(bus.txn_count(), 18 + 2);
    let sent = bus.txn_sent(19);
    assert_eq!(&sent[..7], &[0x80, 0x00, 0x80, 0x10, 0x80, 0xB0, 0x40]);
    // The folded-in clean bytes are retransmitted with their committed
    // values, so the redundant send is harmless.
    assert_eq!(&sent[7..], &[1, 1, 1, 0, 0, 0, 0, 0, 0, 0, 1, 1]);
}

#[test]
fn flush_splits_like_the_scenario() {
    let mut bd = BufferedDisplay::new(SimBus::new(), ADDR).unwrap();
    bd.flush().unwrap();
    bd.draw_pixel(0, 0, true);
    bd.draw_pixel(9, 0, true);
    bd.flush().unwrap();
    let bus = bd.release();
    // One mode selection, two one-byte runs.
    assert_eq!(bus.txn_count(), 18 + 3);
    assert_eq!(bus.txn_sent(19).len(), 7 + 1);
    assert_eq!(
        &bus.txn_sent(20)[..7],
        &[0x80, 0x09, 0x80, 0x10, 0x80, 0xB0, 0x40]
    );
}

#[test]
fn failed_flush_keeps_the_mask_and_retries_fully() {
    let mut bus = SimBus::new();
    // init passes; the first flush's mode selection fails.
    bus.inject_failure_after(1, BusError::Abort);
    let mut bd = BufferedDisplay::new(bus, ADDR).unwrap();
    bd.draw_pixel(0, 0, true);
    assert_eq!(bd.flush().unwrap_err(), BusError::Abort);
    // The mask was left untouched: the retry transmits everything the
    // first attempt would have.
    bd.flush().unwrap();
    let bus = bd.release();
    assert_eq!(bus.txn_count(), 1 + 1 + 16);
    for page in 0..16u8 {
        for col in 0..64u8 {
            let expected = if page == 0 && col == 0 { 1 } else { 0 };
            assert_eq!(bus.ram_byte(page, col), expected);
        }
    }
}

#[test]
fn failure_mid_flush_leaves_later_runs_dirty() {
    let mut bus = SimBus::new();
    // init + mode + 8 page runs pass, the ninth run fails.
    bus.inject_failure_after(10, BusError::NoAcknowledge);
    let mut bd = BufferedDisplay::new(bus, ADDR).unwrap();
    assert_eq!(bd.flush().unwrap_err(), BusError::NoAcknowledge);
    // Retry resends all 16 pages: no dirty bit was cleared. The failed
    // attempt recorded the mode selection and eight page runs.
    bd.flush().unwrap();
    let bus = bd.release();
    assert_eq!(bus.txn_count(), 1 + 9 + 1 + 16);
}

#[test]
fn clean_mask_flush_cannot_fail() {
    let mut bus = SimBus::new();
    // init + mode + 16 runs = 18 transactions before the armed failure.
    bus.inject_failure_after(18, BusError::Abort);
    let mut bd = BufferedDisplay::new(bus, ADDR).unwrap();
    bd.flush().unwrap();
    // The mask is clean now: these flushes attempt no transaction, so the
    // armed failure cannot be reached and they must succeed.
    bd.flush().unwrap();
    bd.flush().unwrap();
    // Once something is dirty again, the next flush reaches the bus and
    // hits the failure.
    bd.draw_pixel(0, 0, true);
    assert_eq!(bd.flush().unwrap_err(), BusError::Abort);
}

#[test]
fn flush_to_second_frame_offsets_columns() {
    let mut bd = BufferedDisplay::new(SimBus::new(), ADDR).unwrap();
    bd.flush_to(Destination::Frame2).unwrap();
    bd.draw_pixel(2, 0, true);
    bd.flush_to(Destination::Frame2).unwrap();
    let bus = bd.release();
    assert_eq!(bus.ram_byte(0, 64 + 2), 1);
    let sent = bus.txn_sent(19);
    // Column command carries the frame offset: 64 + 2.
    assert_eq!(&sent[..7], &[0x80, 0x02, 0x80, 0x14, 0x80, 0xB0, 0x40]);
}
