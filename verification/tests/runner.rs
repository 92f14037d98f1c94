use sh1107::codec::Command;
use sh1107::framing::build_command_data_txn;
use sh1107::framing::build_command_txn;
use sh1107::framing::build_data_txn;
use sh1107::runner::Sh1107;
use sh1107::sim::SimBus;

const ADDR: u8 = 0x3C;

#[test]
fn framing_command_txn_bytes() {
    let cmds = vec![Command::DisplayOnOff(sh1107::codec::DisplayState::On)];
    assert_eq!(build_command_txn(&cmds), vec![0x00, 0xAF]);
}

#[test]
fn framing_command_txn_concatenates() {
    let cmds = vec![Command::SetColumnAddress(3), Command::SetPageAddress(5)];
    assert_eq!(build_command_txn(&cmds), vec![0x00, 0x03, 0x10, 0xB5]);
}

#[test]
fn framing_data_txn_bytes() {
    let data = vec![9, 8, 7];
    assert_eq!(build_data_txn(&data), vec![0x40, 9, 8, 7]);
}

#[test]
fn framing_command_data_txn_intersperses_every_command_byte() {
    let cmds = vec![Command::SetColumnAddress(3), Command::SetPageAddress(5)];
    let data = vec![1, 2, 3];
    // Each command byte sits behind its own continuation control byte; a
    // wrapper that failed to insert the separators would collapse this.
    assert_eq!(
        build_command_data_txn(&cmds, &data),
        vec![0x80, 0x03, 0x80, 0x10, 0x80, 0xB5, 0x40, 1, 2, 3]
    );
}

#[test]
fn runner_run_writes_one_transaction() {
    let bus = SimBus::new();
    let mut sh = Sh1107::new(bus, ADDR);
    let cmds = vec![Command::SetPageAddress(2)];
    sh.run(&cmds).unwrap();
    let bus = sh.release();
    assert_eq!(bus.txn_count(), 1);
    assert!(!bus.txn_is_read(0));
    assert_eq!(bus.txn_addr(0), ADDR);
    assert_eq!(bus.txn_sent(0), vec![0x00, 0xB2]);
}

#[test]
fn runner_write_to_ram_prefixes_data_control_byte() {
    let bus = SimBus::new();
    let mut sh = Sh1107::new(bus, ADDR);
    let data = vec![0xAA, 0x55];
    sh.write_to_ram(&data).unwrap();
    let bus = sh.release();
    assert_eq!(bus.txn_sent(0), vec![0x40, 0xAA, 0x55]);
}

#[test]
fn runner_run_then_write_frames_commands_and_data() {
    let bus = SimBus::new();
    let mut sh = Sh1107::new(bus, ADDR);
    let cmds = vec![Command::SetColumnAddress(0), Command::SetPageAddress(0)];
    let data = vec![1, 2];
    sh.run_then_write_to_ram(&cmds, &data).unwrap();
    let bus = sh.release();
    assert_eq!(
        bus.txn_sent(0),
        vec![0x80, 0x00, 0x80, 0x10, 0x80, 0xB0, 0x40, 1, 2]
    );
}

#[test]
fn runner_read_from_ram_sends_data_control_byte() {
    let bus = SimBus::new();
    let mut sh = Sh1107::new(bus, ADDR);
    // Put known bytes at the cursor, then read them back.
    let data = vec![3, 1, 4, 1, 5];
    sh.write_to_ram(&data).unwrap();
    let cmds = vec![Command::SetColumnAddress(0), Command::SetPageAddress(0)];
    sh.run(&cmds).unwrap();
    let mut buf = vec![0u8; 5];
    sh.read_from_ram(&mut buf).unwrap();
    assert_eq!(buf, vec![3, 1, 4, 1, 5]);
    let bus = sh.release();
    assert!(bus.txn_is_read(2));
    assert_eq!(bus.txn_sent(2), vec![0x40]);
    assert_eq!(bus.txn_received(2), vec![3, 1, 4, 1, 5]);
}

#[test]
fn runner_is_busy_polls_status() {
    let bus = SimBus::new();
    let mut sh = Sh1107::new(bus, ADDR);
    let busy = sh.is_busy().unwrap();
    // The simulated controller is always idle.
    assert!(!busy);
    let bus = sh.release();
    assert!(bus.txn_is_read(0));
    assert_eq!(bus.txn_sent(0), vec![0x80]);
}

#[test]
fn runner_error_is_surfaced_and_nothing_recorded() {
    let mut bus = SimBus::new();
    bus.inject_failure(sh1107::bus::BusError::NoAcknowledge);
    let mut sh = Sh1107::new(bus, ADDR);
    let cmds = vec![Command::Nop];
    let e = sh.run(&cmds).unwrap_err();
    assert_eq!(e, sh1107::bus::BusError::NoAcknowledge);
    let bus = sh.release();
    assert_eq!(bus.txn_count(), 0);
}

#[test]
fn runner_release_returns_the_bus() {
    let bus = SimBus::new();
    let sh = Sh1107::new(bus, ADDR);
    let bus = sh.release();
    // The returned handle carries on as a bus.
    let mut sh2 = Sh1107::new(bus, ADDR);
    let cmds = vec![Command::Nop];
    sh2.run(&cmds).unwrap();
    assert_eq!(sh2.release().txn_count(), 1);
}
