use sh1107::codec::AddressMode;
use sh1107::codec::Command;
use sh1107::codec::Direction;
use sh1107::codec::DisplayMode;
use sh1107::codec::DisplayState;

fn check(cmd: Command, expected: &[u8]) {
    assert!(cmd.is_valid(), "command unexpectedly invalid: {:?}", cmd);
    assert_eq!(cmd.encode(), expected, "wrong encoding for {:?}", cmd);
    assert_eq!(cmd.checked_encode().unwrap(), expected);
}

#[test]
fn encode_column_address_boundaries() {
    check(Command::SetColumnAddress(0), &[0x00, 0x10]);
    check(Command::SetColumnAddress(127), &[0x0F, 0x17]);
    check(Command::SetColumnAddress(100), &[0x04, 0x16]);
}

#[test]
fn encode_address_mode() {
    check(Command::SetAddressMode(AddressMode::Page), &[0x20]);
    check(Command::SetAddressMode(AddressMode::Column), &[0x21]);
}

#[test]
fn encode_contrast_boundaries() {
    check(Command::SetContrastControl(0), &[0x81, 0x00]);
    check(Command::SetContrastControl(128), &[0x81, 0x80]);
    check(Command::SetContrastControl(255), &[0x81, 0xFF]);
}

#[test]
fn encode_segment_remap() {
    check(Command::SetSegmentReMap(false), &[0xA0]);
    check(Command::SetSegmentReMap(true), &[0xA1]);
}

#[test]
fn encode_multiplex_ratio_boundaries() {
    check(Command::SetMultiplexRatio(1), &[0xA8, 0x00]);
    check(Command::SetMultiplexRatio(64), &[0xA8, 0x3F]);
    check(Command::SetMultiplexRatio(128), &[0xA8, 0x7F]);
}

#[test]
fn encode_force_entire_display() {
    check(Command::ForceEntireDisplay(false), &[0xA4]);
    check(Command::ForceEntireDisplay(true), &[0xA5]);
}

#[test]
fn encode_display_mode() {
    check(Command::SetDisplayMode(DisplayMode::BlackOnWhite), &[0xA6]);
    check(Command::SetDisplayMode(DisplayMode::WhiteOnBlack), &[0xA7]);
}

#[test]
fn encode_display_offset_boundaries() {
    check(Command::SetDisplayOffset(0), &[0xD3, 0x00]);
    check(Command::SetDisplayOffset(96), &[0xD3, 0x60]);
    check(Command::SetDisplayOffset(127), &[0xD3, 0x7F]);
}

#[test]
fn encode_dcdc_settings() {
    check(Command::SetDCDCSettings(0), &[0xAD, 0x80]);
    check(Command::SetDCDCSettings(0xF), &[0xAD, 0x8F]);
}

#[test]
fn encode_display_on_off() {
    check(Command::DisplayOnOff(DisplayState::Off), &[0xAE]);
    check(Command::DisplayOnOff(DisplayState::On), &[0xAF]);
}

#[test]
fn encode_page_address_boundaries() {
    check(Command::SetPageAddress(0), &[0xB0]);
    check(Command::SetPageAddress(15), &[0xBF]);
}

#[test]
fn encode_com_scan_direction() {
    check(Command::SetCOMScanDirection(Direction::Normal), &[0xC0]);
    check(Command::SetCOMScanDirection(Direction::Inverted), &[0xC8]);
}

#[test]
fn encode_clock_divider_boundaries() {
    check(
        Command::SetClkDividerOscFrequency { divider: 1, osc_freq_ratio: -25 },
        &[0xD5, 0x00],
    );
    check(
        Command::SetClkDividerOscFrequency { divider: 2, osc_freq_ratio: 0 },
        &[0xD5, 0x51],
    );
    check(
        Command::SetClkDividerOscFrequency { divider: 16, osc_freq_ratio: 50 },
        &[0xD5, 0xFF],
    );
}

#[test]
fn encode_charge_periods() {
    check(
        Command::SetChargePeriods { precharge: None, discharge: 2 },
        &[0xD9, 0x20],
    );
    check(
        Command::SetChargePeriods { precharge: Some(2), discharge: 2 },
        &[0xD9, 0x22],
    );
    check(
        Command::SetChargePeriods { precharge: Some(15), discharge: 15 },
        &[0xD9, 0xFF],
    );
}

#[test]
fn encode_vcomh_deselect_level() {
    check(Command::SetVCOMHDeselectLevel(0x35), &[0xDB, 0x35]);
    check(Command::SetVCOMHDeselectLevel(0), &[0xDB, 0x00]);
}

#[test]
fn encode_start_line_boundaries() {
    check(Command::SetStartLine(0), &[0xDC, 0x00]);
    check(Command::SetStartLine(127), &[0xDC, 0x7F]);
}

#[test]
fn encode_read_modify_write_and_nop() {
    check(Command::StartReadModifyWrite, &[0xE0]);
    check(Command::EndReadModifyWrite, &[0xEE]);
    check(Command::Nop, &[0xE3]);
}

fn rejected(cmd: Command) {
    assert!(!cmd.is_valid(), "command unexpectedly valid: {:?}", cmd);
    assert!(cmd.checked_encode().is_none(), "encoding produced for {:?}", cmd);
}

#[test]
fn reject_ratio_not_multiple_of_five() {
    rejected(Command::SetClkDividerOscFrequency { divider: 2, osc_freq_ratio: 3 });
    rejected(Command::SetClkDividerOscFrequency { divider: 2, osc_freq_ratio: -7 });
}

#[test]
fn reject_ratio_out_of_range() {
    rejected(Command::SetClkDividerOscFrequency { divider: 2, osc_freq_ratio: -30 });
    rejected(Command::SetClkDividerOscFrequency { divider: 2, osc_freq_ratio: 55 });
}

#[test]
fn reject_divider_out_of_range() {
    rejected(Command::SetClkDividerOscFrequency { divider: 0, osc_freq_ratio: 0 });
    rejected(Command::SetClkDividerOscFrequency { divider: 17, osc_freq_ratio: 0 });
}

#[test]
fn reject_column_address_out_of_range() {
    rejected(Command::SetColumnAddress(128));
    rejected(Command::SetColumnAddress(255));
}

#[test]
fn reject_page_address_out_of_range() {
    rejected(Command::SetPageAddress(16));
}

#[test]
fn reject_multiplex_ratio_out_of_range() {
    rejected(Command::SetMultiplexRatio(0));
    rejected(Command::SetMultiplexRatio(129));
}

#[test]
fn reject_display_offset_out_of_range() {
    rejected(Command::SetDisplayOffset(128));
}

#[test]
fn reject_start_line_out_of_range() {
    rejected(Command::SetStartLine(128));
}

#[test]
fn reject_dcdc_settings_out_of_range() {
    rejected(Command::SetDCDCSettings(16));
}

#[test]
fn reject_charge_periods_out_of_range() {
    rejected(Command::SetChargePeriods { precharge: None, discharge: 0 });
    rejected(Command::SetChargePeriods { precharge: None, discharge: 16 });
    rejected(Command::SetChargePeriods { precharge: Some(0), discharge: 2 });
    rejected(Command::SetChargePeriods { precharge: Some(16), discharge: 2 });
}
