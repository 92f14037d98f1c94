//! Symbolic controller commands and their byte-exact wire encoding.
//!
//! Every command encodes to one or two bytes. One command —
//! [`Command::SetColumnAddress`] — expands to two independent one-byte
//! commands (low nibble, then high bits), so its encoding is two bytes that
//! the controller parses as two separate commands.

use vstd::prelude::*;

verus! {

/// Whether the display panel is driven or blanked.
#[derive(Clone, Copy, PartialEq, Eq, Debug, Structural)]
pub enum DisplayState {
    Off,
    On,
}

/// Scan direction of the common output driver.
#[derive(Clone, Copy, PartialEq, Eq, Debug, Structural)]
pub enum Direction {
    Normal,
    Inverted,
}

/// How the controller advances its internal address cursor on each data byte.
#[derive(Clone, Copy, PartialEq, Eq, Debug, Structural)]
pub enum AddressMode {
    Page,
    Column,
}

/// Pixel polarity of the panel.
#[derive(Clone, Copy, PartialEq, Eq, Debug, Structural)]
pub enum DisplayMode {
    BlackOnWhite,
    WhiteOnBlack,
}

/// A symbolic controller command with its numeric fields.
///
/// Field ranges are a usage contract: [`Command::valid`] states them, the
/// encoder requires them, and [`Command::checked_encode`] rejects values
/// outside them before any byte is produced. Nothing is ever silently
/// clamped.
#[derive(Clone, Copy, PartialEq, Eq, Debug)]
pub enum Command {
    /// Move the column cursor; the address must be below 128.
    SetColumnAddress(u8),
    /// Choose how data bytes advance the address cursor.
    SetAddressMode(AddressMode),
    /// Choose the pixel polarity.
    SetDisplayMode(DisplayMode),
    /// Light every pixel regardless of RAM contents.
    ForceEntireDisplay(bool),
    /// Set the display clock: a divider in [1, 16] and an oscillator
    /// frequency adjustment in steps of 5% within [-25%, +50%].
    SetClkDividerOscFrequency { divider: u8, osc_freq_ratio: i8 },
    /// Set the multiplex ratio, in [1, 128].
    SetMultiplexRatio(u8),
    /// Set the display start line, below 128.
    SetStartLine(u8),
    /// Mirror the segment (column) order.
    SetSegmentReMap(bool),
    /// Set the common output scan direction.
    SetCOMScanDirection(Direction),
    /// Offset the mapping from RAM rows to panel rows, below 128.
    SetDisplayOffset(u8),
    /// Set the contrast, over the full byte range.
    SetContrastControl(u8),
    /// Set charge and discharge periods, each in [1, 15]; a missing
    /// precharge encodes as zero.
    SetChargePeriods { precharge: Option<u8>, discharge: u8 },
    /// Set the VCOMH deselect level byte.
    SetVCOMHDeselectLevel(u8),
    /// Configure the charge pump, a four-bit value below 16.
    SetDCDCSettings(u8),
    /// Turn the display on or off.
    DisplayOnOff(DisplayState),
    /// Move the page cursor; the address must be below 16.
    SetPageAddress(u8),
    /// Enter read-modify-write mode.
    StartReadModifyWrite,
    /// Leave read-modify-write mode.
    EndReadModifyWrite,
    /// Do nothing.
    Nop,
}

impl Command {
    /// Field ranges under which a command may be encoded.
    ///
    /// The oscillator ratio check offsets by 25 so the operand stays
    /// non-negative; since 25 is itself a multiple of 5, the condition still
    /// says "the ratio is a multiple of 5".
    pub open spec fn valid(self) -> bool {
        match self {
            Command::SetColumnAddress(addr) => addr < 128,
            Command::SetClkDividerOscFrequency { divider, osc_freq_ratio } => {
                &&& 1 <= divider <= 16
                &&& -25 <= osc_freq_ratio <= 50
                &&& (osc_freq_ratio + 25) % 5 == 0
            },
            Command::SetMultiplexRatio(ratio) => 1 <= ratio <= 128,
            Command::SetStartLine(line) => line < 128,
            Command::SetDisplayOffset(offset) => offset < 128,
            Command::SetChargePeriods { precharge, discharge } => {
                &&& (precharge matches Some(v) ==> 1 <= v <= 15)
                &&& 1 <= discharge <= 15
            },
            Command::SetDCDCSettings(cfg) => cfg < 16,
            Command::SetPageAddress(addr) => addr < 16,
            _ => true,
        }
    }

    /// The wire bytes of a valid command: one byte for selector commands,
    /// two for opcode-plus-argument commands, and two one-byte commands for
    /// the split column address.
    pub open spec fn spec_encode(self) -> Seq<u8>
        recommends
            self.valid(),
    {
        match self {
            Command::SetColumnAddress(addr) => seq![
                (addr as int % 16) as u8,
                (0x10 + addr as int / 16) as u8,
            ],
            Command::SetAddressMode(mode) => seq![
                if mode is Page { 0x20 } else { 0x21 },
            ],
            Command::SetContrastControl(contrast) => seq![0x81u8, contrast],
            Command::SetSegmentReMap(is_remapped) => seq![
                if is_remapped { 0xA1 } else { 0xA0 },
            ],
            Command::SetMultiplexRatio(ratio) => seq![0xA8u8, (ratio - 1) as u8],
            Command::ForceEntireDisplay(state) => seq![
                if state { 0xA5 } else { 0xA4 },
            ],
            Command::SetDisplayMode(mode) => seq![
                if mode is WhiteOnBlack { 0xA7 } else { 0xA6 },
            ],
            Command::SetDisplayOffset(offset) => seq![0xD3u8, offset],
            Command::SetDCDCSettings(cfg) => seq![0xADu8, (0x80 + cfg) as u8],
            Command::DisplayOnOff(state) => seq![
                if state is On { 0xAF } else { 0xAE },
            ],
            Command::SetPageAddress(addr) => seq![(0xB0 + addr) as u8],
            Command::SetCOMScanDirection(dir) => seq![
                if dir is Normal { 0xC0 } else { 0xC8 },
            ],
            Command::SetClkDividerOscFrequency { divider, osc_freq_ratio } => seq![
                0xD5u8,
                ((osc_freq_ratio + 25) as int / 5 * 16 + (divider - 1)) as u8,
            ],
            Command::SetChargePeriods { precharge, discharge } => seq![
                0xD9u8,
                (discharge * 16 + match precharge {
                    Some(v) => v as int,
                    None => 0,
                }) as u8,
            ],
            Command::SetVCOMHDeselectLevel(level) => seq![0xDBu8, level],
            Command::SetStartLine(line) => seq![0xDCu8, line],
            Command::StartReadModifyWrite => seq![0xE0u8],
            Command::EndReadModifyWrite => seq![0xEEu8],
            Command::Nop => seq![0xE3u8],
        }
    }

    /// Runtime check of the field ranges.
    pub fn is_valid(&self) -> (r: bool)
        ensures
            r == self.valid(),
    {
        match *self {
            Command::SetColumnAddress(addr) => addr < 128,
            Command::SetClkDividerOscFrequency { divider, osc_freq_ratio } => {
                1 <= divider && divider <= 16
                    && -25 <= osc_freq_ratio && osc_freq_ratio <= 50
                    && (osc_freq_ratio + 25) % 5 == 0
            },
            Command::SetMultiplexRatio(ratio) => 1 <= ratio && ratio <= 128,
            Command::SetStartLine(line) => line < 128,
            Command::SetDisplayOffset(offset) => offset < 128,
            Command::SetChargePeriods { precharge, discharge } => {
                (match precharge {
                    Some(v) => 1 <= v && v <= 15,
                    None => true,
                }) && 1 <= discharge && discharge <= 15
            },
            Command::SetDCDCSettings(cfg) => cfg < 16,
            Command::SetPageAddress(addr) => addr < 16,
            _ => true,
        }
    }

    /// Encode a valid command into its wire bytes.
    ///
    /// Validity is a precondition: callers must never construct an invalid
    /// command, and [`Command::checked_encode`] is the rejecting entry for
    /// unchecked values.
    pub fn encode(self) -> (r: Vec<u8>)
        requires
            self.valid(),
        ensures
            r@ == self.spec_encode(),
            1 <= r@.len() <= 2,
    {
        let mut out: Vec<u8> = Vec::new();
        match self {
            Command::SetColumnAddress(addr) => {
                out.push(addr % 16);
                out.push(0x10 + addr / 16);
            },
            Command::SetAddressMode(mode) => {
                out.push(match mode {
                    AddressMode::Page => 0x20,
                    AddressMode::Column => 0x21,
                });
            },
            Command::SetContrastControl(contrast) => {
                out.push(0x81);
                out.push(contrast);
            },
            Command::SetSegmentReMap(is_remapped) => {
                out.push(if is_remapped { 0xA1 } else { 0xA0 });
            },
            Command::SetMultiplexRatio(ratio) => {
                out.push(0xA8);
                out.push(ratio - 1);
            },
            Command::ForceEntireDisplay(state) => {
                out.push(if state { 0xA5 } else { 0xA4 });
            },
            Command::SetDisplayMode(mode) => {
                out.push(match mode {
                    DisplayMode::BlackOnWhite => 0xA6,
                    DisplayMode::WhiteOnBlack => 0xA7,
                });
            },
            Command::SetDisplayOffset(offset) => {
                out.push(0xD3);
                out.push(offset);
            },
            Command::SetDCDCSettings(cfg) => {
                out.push(0xAD);
                out.push(0x80 + cfg);
            },
            Command::DisplayOnOff(state) => {
                out.push(match state {
                    DisplayState::Off => 0xAE,
                    DisplayState::On => 0xAF,
                });
            },
            Command::SetPageAddress(addr) => {
                out.push(0xB0 + addr);
            },
            Command::SetCOMScanDirection(dir) => {
                out.push(match dir {
                    Direction::Normal => 0xC0,
                    Direction::Inverted => 0xC8,
                });
            },
            Command::SetClkDividerOscFrequency { divider, osc_freq_ratio } => {
                let stepped: i8 = (osc_freq_ratio + 25) / 5;
                out.push(0xD5);
                out.push((stepped as u8) * 16 + (divider - 1));
            },
            Command::SetChargePeriods { precharge, discharge } => {
                let pre: u8 = match precharge {
                    Some(v) => v,
                    None => 0,
                };
                out.push(0xD9);
                out.push(discharge * 16 + pre);
            },
            Command::SetVCOMHDeselectLevel(level) => {
                out.push(0xDB);
                out.push(level);
            },
            Command::SetStartLine(line) => {
                out.push(0xDC);
                out.push(line);
            },
            Command::StartReadModifyWrite => {
                out.push(0xE0);
            },
            Command::EndReadModifyWrite => {
                out.push(0xEE);
            },
            Command::Nop => {
                out.push(0xE3);
            },
        }
        out
    }

    /// Encode after validating: `Some` exactly on valid commands, `None`
    /// otherwise, with no bytes produced for rejected values — every
    /// out-of-range field is rejected before encoding, never clamped.
    pub fn checked_encode(self) -> (r: Option<Vec<u8>>)
        ensures
            r is Some <==> self.valid(),
            r matches Some(v) ==> v@ == self.spec_encode(),
    {
        if self.is_valid() {
            Some(self.encode())
        } else {
            None
        }
    }
}

} // verus!
