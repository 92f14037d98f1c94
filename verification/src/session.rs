//! The display session: owns the bus handle, runs the power-on sequence,
//! and exposes addressing, contrast, orientation, power-state and bulk
//! frame operations on top of the transaction runner.
//!
//! The canonical orientation is 64 columns by 128 rows: 16 pages of 64
//! bytes each, laid out page-major in every frame buffer this module
//! handles.

use vstd::prelude::*;

use crate::bus::BusError;
use crate::bus::WriteIter;
use crate::codec::AddressMode;
use crate::codec::Command;
use crate::codec::Direction;
use crate::codec::DisplayMode;
use crate::codec::DisplayState;
use crate::framing::all_valid;
use crate::framing::command_data_txn_bytes;
use crate::framing::command_txn_bytes;
use crate::framing::Txn;
use crate::framing::CONTROL_COMMAND_MORE;
use crate::framing::CONTROL_DATA;
use crate::runner::busy_flag;
use crate::runner::Sh1107;
use crate::COLUMN;
use crate::FRAME_BYTES;
use crate::PAGE;

verus! {

/// Which half of the controller's RAM a frame is placed in: the RAM is 128
/// columns wide, the panel shows 64, so two full frames fit side by side.
#[derive(Clone, Copy, PartialEq, Eq, Debug, Structural)]
pub enum Destination {
    Frame1,
    Frame2,
}

impl Destination {
    /// The column offset of this frame within controller RAM.
    pub open spec fn spec_offset(self) -> u8 {
        if self is Frame1 {
            0
        } else {
            64
        }
    }

    /// Runtime column offset of this frame within controller RAM.
    pub fn offset(self) -> (r: u8)
        ensures
            r == self.spec_offset(),
    {
        match self {
            Destination::Frame1 => 0,
            Destination::Frame2 => 64,
        }
    }
}

/// The fixed power-on sequence: display off, clocking, geometry,
/// orientation, electrical configuration, intensity, then addressing mode.
pub open spec fn init_commands() -> Seq<Command> {
    seq![
        Command::DisplayOnOff(DisplayState::Off),
        Command::SetClkDividerOscFrequency { divider: 2, osc_freq_ratio: 0 },
        Command::SetMultiplexRatio(COLUMN),
        Command::SetDisplayOffset(96),
        Command::SetStartLine(0),
        Command::SetSegmentReMap(false),
        Command::SetCOMScanDirection(Direction::Normal),
        Command::SetChargePeriods { precharge: Some(2), discharge: 2 },
        Command::SetVCOMHDeselectLevel(0x35),
        Command::SetDCDCSettings(0xF),
        Command::SetContrastControl(128),
        Command::ForceEntireDisplay(false),
        Command::SetDisplayMode(DisplayMode::BlackOnWhite),
    ]
}

/// The single transaction of the power-on sequence.
pub open spec fn init_txn(addr: u8) -> Txn {
    Txn::Write { addr, bytes: command_txn_bytes(init_commands()) }
}

/// The transaction that selects an address cursor mode.
pub open spec fn mode_txn(addr: u8, mode: AddressMode) -> Txn {
    Txn::Write { addr, bytes: command_txn_bytes(seq![Command::SetAddressMode(mode)]) }
}

/// The transaction that writes one page row of a frame: position the
/// cursor at the frame's column offset and the page, then the page's 64
/// bytes.
pub open spec fn page_write_txn(addr: u8, dest: Destination, frame: Seq<u8>, p: int) -> Txn {
    Txn::Write {
        addr,
        bytes: command_data_txn_bytes(
            seq![
                Command::SetColumnAddress(dest.spec_offset()),
                Command::SetPageAddress(p as u8),
            ],
            frame.subrange(p * 64, p * 64 + 64),
        ),
    }
}

/// All transactions of a page-major full-frame write.
pub open spec fn frame_by_page_txns(addr: u8, dest: Destination, frame: Seq<u8>) -> Seq<Txn> {
    seq![mode_txn(addr, AddressMode::Page)] + Seq::new(
        16,
        |p: int| page_write_txn(addr, dest, frame, p),
    )
}

/// The transaction that writes one column of a frame: position the cursor
/// at the column and page zero, then the column's 16 page bytes.
pub open spec fn column_write_txn(addr: u8, dest: Destination, frame: Seq<u8>, c: int) -> Txn {
    Txn::Write {
        addr,
        bytes: command_data_txn_bytes(
            seq![
                Command::SetColumnAddress((dest.spec_offset() + c) as u8),
                Command::SetPageAddress(0),
            ],
            frame.subrange(c * 16, c * 16 + 16),
        ),
    }
}

/// All transactions of a column-major full-frame write.
pub open spec fn frame_by_column_txns(addr: u8, dest: Destination, frame: Seq<u8>) -> Seq<Txn> {
    seq![mode_txn(addr, AddressMode::Column)] + Seq::new(
        64,
        |c: int| column_write_txn(addr, dest, frame, c),
    )
}

/// The command transaction that positions the cursor for reading one page.
pub open spec fn page_read_cmd_txn(addr: u8, p: int) -> Txn {
    Txn::Write {
        addr,
        bytes: command_txn_bytes(
            seq![Command::SetColumnAddress(0), Command::SetPageAddress(p as u8)],
        ),
    }
}

/// The read transaction that returned one page row of `content`.
pub open spec fn page_read_data_txn(addr: u8, content: Seq<u8>, p: int) -> Txn {
    Txn::WriteRead {
        addr,
        sent: seq![CONTROL_DATA],
        received: content.subrange(p * 64, p * 64 + 64),
    }
}

/// The `i`-th transaction of a full-frame read whose pages, concatenated,
/// are `content`.
pub open spec fn read_frame_txn_at(addr: u8, content: Seq<u8>, i: int) -> Txn {
    if i == 0 {
        mode_txn(addr, AddressMode::Page)
    } else if (i - 1) % 2 == 0 {
        page_read_cmd_txn(addr, (i - 1) / 2)
    } else {
        page_read_data_txn(addr, content, (i - 1) / 2)
    }
}

/// The first `n` transactions of a full-frame read.
pub open spec fn read_frame_txns_upto(addr: u8, content: Seq<u8>, n: int) -> Seq<Txn> {
    Seq::new(n as nat, |i: int| read_frame_txn_at(addr, content, i))
}

/// All 33 transactions of a full-frame read: one mode selection, then a
/// cursor positioning and a page read for each of the 16 pages.
pub open spec fn read_frame_txns(addr: u8, content: Seq<u8>) -> Seq<Txn> {
    read_frame_txns_upto(addr, content, 33)
}

/// The status-poll transactions that returned the status bytes `ss`, in
/// order.
pub open spec fn status_read_txns(addr: u8, ss: Seq<u8>) -> Seq<Txn> {
    Seq::new(
        ss.len(),
        |i: int| Txn::WriteRead { addr, sent: seq![CONTROL_COMMAND_MORE], received: seq![ss[i]] },
    )
}

/// An initialized display session over a bus handle.
#[derive(Debug)]
pub struct Display<T: WriteIter> {
    sh: Sh1107<T>,
}

impl<T: WriteIter> Display<T> {
    /// The underlying transaction runner.
    pub closed spec fn spec_runner(&self) -> Sh1107<T> {
        self.sh
    }

    /// The device address of this session.
    pub open spec fn spec_address(&self) -> u8 {
        self.spec_runner().spec_address()
    }

    /// The owned bus handle.
    pub open spec fn spec_bus(&self) -> T {
        self.spec_runner().spec_bus()
    }

    /// All transactions this session's bus has carried out.
    pub open spec fn transcript(&self) -> Seq<Txn> {
        self.spec_runner().transcript()
    }

    /// Run the power-on sequence over the given bus handle. On success the
    /// session owns the bus; on failure the untouched bus handle is handed
    /// back beside the error, so the caller can retry or repurpose it.
    pub fn new(i2c_bus: T, address: u8) -> (r: Result<Self, (T, BusError)>)
        ensures
            r matches Ok(d) ==> {
                &&& d.spec_address() == address
                &&& d.transcript() == i2c_bus.transcript().push(init_txn(address))
            },
            r matches Err((b, e)) ==> b.transcript() == i2c_bus.transcript(),
    {
        let mut sh = Sh1107::new(i2c_bus, address);
        let mut cmds: Vec<Command> = Vec::new();
        cmds.push(Command::DisplayOnOff(DisplayState::Off));
        cmds.push(Command::SetClkDividerOscFrequency { divider: 2, osc_freq_ratio: 0 });
        cmds.push(Command::SetMultiplexRatio(COLUMN));
        cmds.push(Command::SetDisplayOffset(96));
        cmds.push(Command::SetStartLine(0));
        cmds.push(Command::SetSegmentReMap(false));
        cmds.push(Command::SetCOMScanDirection(Direction::Normal));
        cmds.push(Command::SetChargePeriods { precharge: Some(2), discharge: 2 });
        cmds.push(Command::SetVCOMHDeselectLevel(0x35));
        cmds.push(Command::SetDCDCSettings(0xF));
        cmds.push(Command::SetContrastControl(128));
        cmds.push(Command::ForceEntireDisplay(false));
        cmds.push(Command::SetDisplayMode(DisplayMode::BlackOnWhite));
        proof {
            assert(cmds@ =~= init_commands());
            assert(all_valid(cmds@));
        }
        match sh.run(&cmds) {
            Ok(()) => Ok(Display { sh }),
            Err(e) => Err((sh.release(), e)),
        }
    }

    /// Send a group of commands as one command transaction.
    pub(crate) fn run(&mut self, commands: &Vec<Command>) -> (r: Result<(), BusError>)
        requires
            all_valid(commands@),
        ensures
            final(self).spec_address() == old(self).spec_address(),
            r is Ok ==> final(self).transcript() == old(self).transcript().push(
                Txn::Write {
                    addr: old(self).spec_address(),
                    bytes: command_txn_bytes(commands@),
                },
            ),
            r is Err ==> final(self).transcript() == old(self).transcript(),
    {
        self.sh.run(commands)
    }

    /// Send a group of commands, then pixel bytes, as one transaction.
    pub(crate) fn run_then_write_to_ram(
        &mut self,
        commands: &Vec<Command>,
        data: &Vec<u8>,
    ) -> (r: Result<(), BusError>)
        requires
            all_valid(commands@),
        ensures
            final(self).spec_address() == old(self).spec_address(),
            r is Ok ==> final(self).transcript() == old(self).transcript().push(
                Txn::Write {
                    addr: old(self).spec_address(),
                    bytes: command_data_txn_bytes(commands@, data@),
                },
            ),
            r is Err ==> final(self).transcript() == old(self).transcript(),
    {
        self.sh.run_then_write_to_ram(commands, data)
    }

    /// Turn the display on or off.
    pub fn set_state(&mut self, state: DisplayState) -> (r: Result<(), BusError>)
        ensures
            final(self).spec_address() == old(self).spec_address(),
            r is Ok ==> final(self).transcript() == old(self).transcript().push(
                Txn::Write {
                    addr: old(self).spec_address(),
                    bytes: command_txn_bytes(seq![Command::DisplayOnOff(state)]),
                },
            ),
            r is Err ==> final(self).transcript() == old(self).transcript(),
    {
        let mut cmds: Vec<Command> = Vec::new();
        cmds.push(Command::DisplayOnOff(state));
        proof {
            assert(cmds@ =~= seq![Command::DisplayOnOff(state)]);
        }
        self.sh.run(&cmds)
    }

    /// Set the display start line; the line must be below 128.
    pub fn set_start_line(&mut self, line: u8) -> (r: Result<(), BusError>)
        requires
            line < 128,
        ensures
            final(self).spec_address() == old(self).spec_address(),
            r is Ok ==> final(self).transcript() == old(self).transcript().push(
                Txn::Write {
                    addr: old(self).spec_address(),
                    bytes: command_txn_bytes(seq![Command::SetStartLine(line)]),
                },
            ),
            r is Err ==> final(self).transcript() == old(self).transcript(),
    {
        let mut cmds: Vec<Command> = Vec::new();
        cmds.push(Command::SetStartLine(line));
        proof {
            assert(cmds@ =~= seq![Command::SetStartLine(line)]);
        }
        self.sh.run(&cmds)
    }

    /// Set the contrast; every byte value is allowed.
    pub fn set_contrast(&mut self, contrast: u8) -> (r: Result<(), BusError>)
        ensures
            final(self).spec_address() == old(self).spec_address(),
            r is Ok ==> final(self).transcript() == old(self).transcript().push(
                Txn::Write {
                    addr: old(self).spec_address(),
                    bytes: command_txn_bytes(seq![Command::SetContrastControl(contrast)]),
                },
            ),
            r is Err ==> final(self).transcript() == old(self).transcript(),
    {
        let mut cmds: Vec<Command> = Vec::new();
        cmds.push(Command::SetContrastControl(contrast));
        proof {
            assert(cmds@ =~= seq![Command::SetContrastControl(contrast)]);
        }
        self.sh.run(&cmds)
    }

    /// The command pair that mirrors the panel horizontally or restores it.
    pub open spec fn flip_horizontal_commands(flip: bool) -> Seq<Command> {
        if flip {
            seq![
                Command::SetCOMScanDirection(Direction::Inverted),
                Command::SetDisplayOffset(32),
            ]
        } else {
            seq![
                Command::SetCOMScanDirection(Direction::Normal),
                Command::SetDisplayOffset(96),
            ]
        }
    }

    /// Mirror the panel horizontally, or restore the normal orientation.
    pub fn flip_horizontal(&mut self, flip: bool) -> (r: Result<(), BusError>)
        ensures
            final(self).spec_address() == old(self).spec_address(),
            r is Ok ==> final(self).transcript() == old(self).transcript().push(
                Txn::Write {
                    addr: old(self).spec_address(),
                    bytes: command_txn_bytes(Self::flip_horizontal_commands(flip)),
                },
            ),
            r is Err ==> final(self).transcript() == old(self).transcript(),
    {
        let mut cmds: Vec<Command> = Vec::new();
        if flip {
            cmds.push(Command::SetCOMScanDirection(Direction::Inverted));
            cmds.push(Command::SetDisplayOffset(32));
        } else {
            cmds.push(Command::SetCOMScanDirection(Direction::Normal));
            cmds.push(Command::SetDisplayOffset(96));
        }
        proof {
            assert(cmds@ =~= Self::flip_horizontal_commands(flip));
        }
        self.sh.run(&cmds)
    }

    /// Mirror the panel vertically, or restore the normal orientation.
    pub fn flip_vertical(&mut self, flip: bool) -> (r: Result<(), BusError>)
        ensures
            final(self).spec_address() == old(self).spec_address(),
            r is Ok ==> final(self).transcript() == old(self).transcript().push(
                Txn::Write {
                    addr: old(self).spec_address(),
                    bytes: command_txn_bytes(seq![Command::SetSegmentReMap(flip)]),
                },
            ),
            r is Err ==> final(self).transcript() == old(self).transcript(),
    {
        let mut cmds: Vec<Command> = Vec::new();
        cmds.push(Command::SetSegmentReMap(flip));
        proof {
            assert(cmds@ =~= seq![Command::SetSegmentReMap(flip)]);
        }
        self.sh.run(&cmds)
    }

    /// Write a whole frame page by page, bypassing any dirty tracking:
    /// 16 transactions of 64 bytes after one mode selection.
    pub fn write_frame_by_page(&mut self, dest: Destination, frame: &Vec<u8>) -> (r: Result<
        (),
        BusError,
    >)
        requires
            frame@.len() == FRAME_BYTES,
        ensures
            final(self).spec_address() == old(self).spec_address(),
            r is Ok ==> final(self).transcript() == old(self).transcript() + frame_by_page_txns(
                old(self).spec_address(),
                dest,
                frame@,
            ),
            r is Err ==> exists|n: int|
                {
                    &&& 0 <= n <= frame_by_page_txns(old(self).spec_address(), dest, frame@).len()
                    &&& final(self).transcript() == old(self).transcript() + frame_by_page_txns(
                        old(self).spec_address(),
                        dest,
                        frame@,
                    ).take(n)
                },
    {
        let ghost addr = old(self).spec_address();
        let ghost txns = frame_by_page_txns(addr, dest, frame@);
        let mut mode_cmds: Vec<Command> = Vec::new();
        mode_cmds.push(Command::SetAddressMode(AddressMode::Page));
        proof {
            assert(mode_cmds@ =~= seq![Command::SetAddressMode(AddressMode::Page)]);
        }
        match self.sh.run(&mode_cmds) {
            Ok(()) => {},
            Err(e) => {
                proof {
                    assert(txns.take(0) =~= Seq::<Txn>::empty());
                    assert(self.transcript() =~= old(self).transcript() + txns.take(0));
                }
                return Err(e);
            },
        }
        proof {
            assert(txns.take(1) =~= seq![mode_txn(addr, AddressMode::Page)]);
            assert(self.transcript() =~= old(self).transcript() + txns.take(1));
        }
        let offset = dest.offset();
        let mut page: u8 = 0;
        while page < PAGE
            invariant
                page <= PAGE,
                frame@.len() == FRAME_BYTES,
                offset == dest.spec_offset(),
                self.spec_address() == addr,
                addr == old(self).spec_address(),
                txns == frame_by_page_txns(addr, dest, frame@),
                self.transcript() == old(self).transcript() + txns.take(1 + page as int),
            decreases PAGE - page,
        {
            let mut cmds: Vec<Command> = Vec::new();
            cmds.push(Command::SetColumnAddress(offset));
            cmds.push(Command::SetPageAddress(page));
            let base: usize = (page as usize) * 64;
            let mut chunk: Vec<u8> = Vec::new();
            let mut j: usize = 0;
            while j < 64
                invariant
                    j <= 64,
                    page < PAGE,
                    base == (page as int) * 64,
                    frame@.len() == FRAME_BYTES,
                    chunk@ == frame@.subrange(base as int, base as int + j as int),
                decreases 64 - j,
            {
                let b = frame[base + j];
                chunk.push(b);
                proof {
                    assert(frame@.subrange(base as int, base as int + (j + 1) as int)
                        =~= frame@.subrange(base as int, base as int + j as int).push(
                        frame@[base as int + j as int],
                    ));
                }
                j = j + 1;
            }
            proof {
                assert(cmds@ =~= seq![
                    Command::SetColumnAddress(offset),
                    Command::SetPageAddress(page),
                ]);
                assert(all_valid(cmds@));
            }
            match self.sh.run_then_write_to_ram(&cmds, &chunk) {
                Ok(()) => {
                    proof {
                        assert(txns[1 + page as int] == page_write_txn(
                            addr,
                            dest,
                            frame@,
                            page as int,
                        ));
                        assert(txns.take(2 + page as int) =~= txns.take(1 + page as int).push(
                            txns[1 + page as int],
                        ));
                        assert(self.transcript() =~= old(self).transcript() + txns.take(
                            2 + page as int,
                        ));
                    }
                },
                Err(e) => {
                    proof {
                        assert(self.transcript() =~= old(self).transcript() + txns.take(
                            1 + page as int,
                        ));
                    }
                    return Err(e);
                },
            }
            page = page + 1;
        }
        proof {
            assert(txns.take(17) =~= txns);
        }
        Ok(())
    }

    /// Write a whole frame column by column, bypassing any dirty tracking:
    /// 64 transactions of 16 bytes after one mode selection. The input is
    /// laid out column-major, 16 page bytes per column.
    pub fn write_frame_by_column(&mut self, dest: Destination, frame: &Vec<u8>) -> (r: Result<
        (),
        BusError,
    >)
        requires
            frame@.len() == FRAME_BYTES,
        ensures
            final(self).spec_address() == old(self).spec_address(),
            r is Ok ==> final(self).transcript() == old(self).transcript() + frame_by_column_txns(
                old(self).spec_address(),
                dest,
                frame@,
            ),
            r is Err ==> exists|n: int|
                {
                    &&& 0 <= n <= frame_by_column_txns(old(self).spec_address(), dest, frame@).len()
                    &&& final(self).transcript() == old(self).transcript() + frame_by_column_txns(
                        old(self).spec_address(),
                        dest,
                        frame@,
                    ).take(n)
                },
    {
        let ghost addr = old(self).spec_address();
        let ghost txns = frame_by_column_txns(addr, dest, frame@);
        let mut mode_cmds: Vec<Command> = Vec::new();
        mode_cmds.push(Command::SetAddressMode(AddressMode::Column));
        proof {
            assert(mode_cmds@ =~= seq![Command::SetAddressMode(AddressMode::Column)]);
        }
        match self.sh.run(&mode_cmds) {
            Ok(()) => {},
            Err(e) => {
                proof {
                    assert(txns.take(0) =~= Seq::<Txn>::empty());
                    assert(self.transcript() =~= old(self).transcript() + txns.take(0));
                }
                return Err(e);
            },
        }
        proof {
            assert(txns.take(1) =~= seq![mode_txn(addr, AddressMode::Column)]);
            assert(self.transcript() =~= old(self).transcript() + txns.take(1));
        }
        let offset = dest.offset();
        let mut col: u8 = 0;
        while col < COLUMN
            invariant
                col <= COLUMN,
                frame@.len() == FRAME_BYTES,
                offset == dest.spec_offset(),
                self.spec_address() == addr,
                addr == old(self).spec_address(),
                txns == frame_by_column_txns(addr, dest, frame@),
                self.transcript() == old(self).transcript() + txns.take(1 + col as int),
            decreases COLUMN - col,
        {
            let mut cmds: Vec<Command> = Vec::new();
            cmds.push(Command::SetColumnAddress(offset + col));
            cmds.push(Command::SetPageAddress(0));
            let base: usize = (col as usize) * 16;
            let mut chunk: Vec<u8> = Vec::new();
            let mut j: usize = 0;
            while j < 16
                invariant
                    j <= 16,
                    col < COLUMN,
                    base == (col as int) * 16,
                    frame@.len() == FRAME_BYTES,
                    chunk@ == frame@.subrange(base as int, base as int + j as int),
                decreases 16 - j,
            {
                let b = frame[base + j];
                chunk.push(b);
                proof {
                    assert(frame@.subrange(base as int, base as int + (j + 1) as int)
                        =~= frame@.subrange(base as int, base as int + j as int).push(
                        frame@[base as int + j as int],
                    ));
                }
                j = j + 1;
            }
            proof {
                assert(cmds@ =~= seq![
                    Command::SetColumnAddress((offset + col) as u8),
                    Command::SetPageAddress(0),
                ]);
                assert(all_valid(cmds@));
            }
            match self.sh.run_then_write_to_ram(&cmds, &chunk) {
                Ok(()) => {
                    proof {
                        assert(txns[1 + col as int] == column_write_txn(
                            addr,
                            dest,
                            frame@,
                            col as int,
                        ));
                        assert(txns.take(2 + col as int) =~= txns.take(1 + col as int).push(
                            txns[1 + col as int],
                        ));
                        assert(self.transcript() =~= old(self).transcript() + txns.take(
                            2 + col as int,
                        ));
                    }
                },
                Err(e) => {
                    proof {
                        assert(self.transcript() =~= old(self).transcript() + txns.take(
                            1 + col as int,
                        ));
                    }
                    return Err(e);
                },
            }
            col = col + 1;
        }
        proof {
            assert(txns.take(65) =~= txns);
        }
        Ok(())
    }

    /// Read the whole frame back page by page into `buf`, positioning the
    /// cursor before every page because the protocol keeps no cursor state
    /// across transactions.
    pub fn read_frame(&mut self, buf: &mut Vec<u8>) -> (r: Result<(), BusError>)
        requires
            old(buf)@.len() == FRAME_BYTES,
        ensures
            final(self).spec_address() == old(self).spec_address(),
            final(buf)@.len() == FRAME_BYTES,
            r is Ok ==> final(self).transcript() == old(self).transcript() + read_frame_txns(
                old(self).spec_address(),
                final(buf)@,
            ),
            r is Err ==> exists|n: int|
                {
                    &&& 0 <= n <= 33
                    &&& final(self).transcript() == old(self).transcript() + read_frame_txns_upto(
                        old(self).spec_address(),
                        final(buf)@,
                        n,
                    )
                },
    {
        let ghost addr = old(self).spec_address();
        let mut mode_cmds: Vec<Command> = Vec::new();
        mode_cmds.push(Command::SetAddressMode(AddressMode::Page));
        proof {
            assert(mode_cmds@ =~= seq![Command::SetAddressMode(AddressMode::Page)]);
        }
        match self.sh.run(&mode_cmds) {
            Ok(()) => {},
            Err(e) => {
                proof {
                    assert(read_frame_txns_upto(addr, buf@, 0) =~= Seq::<Txn>::empty());
                    assert(self.transcript() =~= old(self).transcript() + read_frame_txns_upto(
                        addr,
                        buf@,
                        0,
                    ));
                }
                return Err(e);
            },
        }
        proof {
            assert(read_frame_txns_upto(addr, buf@, 1) =~= seq![mode_txn(addr, AddressMode::Page)]);
            assert(self.transcript() =~= old(self).transcript() + read_frame_txns_upto(
                addr,
                buf@,
                1,
            ));
        }
        let mut page: u8 = 0;
        while page < PAGE
            invariant
                page <= PAGE,
                buf@.len() == FRAME_BYTES,
                self.spec_address() == addr,
                addr == old(self).spec_address(),
                self.transcript() == old(self).transcript() + read_frame_txns_upto(
                    addr,
                    buf@,
                    1 + 2 * page as int,
                ),
            decreases PAGE - page,
        {
            let ghost buf_entry = buf@;
            let mut temp: Vec<u8> = Vec::new();
            let mut k: usize = 0;
            while k < 64
                invariant
                    k <= 64,
                    temp@.len() == k,
                decreases 64 - k,
            {
                temp.push(0);
                k = k + 1;
            }
            let mut cmds: Vec<Command> = Vec::new();
            cmds.push(Command::SetColumnAddress(0));
            cmds.push(Command::SetPageAddress(page));
            proof {
                assert(cmds@ =~= seq![Command::SetColumnAddress(0), Command::SetPageAddress(page)]);
                assert(all_valid(cmds@));
            }
            match self.sh.run(&cmds) {
                Ok(()) => {},
                Err(e) => {
                    proof {
                        assert(self.transcript() =~= old(self).transcript() + read_frame_txns_upto(
                            addr,
                            buf@,
                            1 + 2 * page as int,
                        ));
                    }
                    return Err(e);
                },
            }
            proof {
                assert(read_frame_txns_upto(addr, buf@, 2 + 2 * page as int)
                    =~= read_frame_txns_upto(addr, buf@, 1 + 2 * page as int).push(
                    page_read_cmd_txn(addr, page as int),
                ));
                assert(self.transcript() =~= old(self).transcript() + read_frame_txns_upto(
                    addr,
                    buf@,
                    2 + 2 * page as int,
                ));
            }
            match self.sh.read_from_ram(&mut temp) {
                Ok(()) => {},
                Err(e) => {
                    proof {
                        assert(self.transcript() =~= old(self).transcript() + read_frame_txns_upto(
                            addr,
                            buf@,
                            2 + 2 * page as int,
                        ));
                    }
                    return Err(e);
                },
            }
            let base: usize = (page as usize) * 64;
            let mut j: usize = 0;
            while j < 64
                invariant
                    j <= 64,
                    page < PAGE,
                    base == (page as int) * 64,
                    buf@.len() == FRAME_BYTES,
                    temp@.len() == 64,
                    forall|q: int|
                        0 <= q < FRAME_BYTES && !(base <= q < base + j) ==> buf@[q]
                            == buf_entry[q],
                    forall|q: int| 0 <= q < j ==> buf@[base + q] == temp@[q],
                decreases 64 - j,
            {
                let b = temp[j];
                buf.set(base + j, b);
                j = j + 1;
            }
            proof {
                assert(buf@.subrange(base as int, base as int + 64) =~= temp@);
                // Entries before this page reference untouched regions, so
                // the recorded prefix is unchanged by the copy.
                assert forall|i: int| 0 <= i < 2 + 2 * page as int implies read_frame_txn_at(
                    addr,
                    buf@,
                    i,
                ) == read_frame_txn_at(addr, buf_entry, i) by {
                    if i > 0 && (i - 1) % 2 == 1 {
                        let p = (i - 1) / 2;
                        assert(p < page as int);
                        assert(buf@.subrange(p * 64, p * 64 + 64) =~= buf_entry.subrange(
                            p * 64,
                            p * 64 + 64,
                        ));
                    }
                }
                assert(read_frame_txns_upto(addr, buf@, 2 + 2 * page as int)
                    =~= read_frame_txns_upto(addr, buf_entry, 2 + 2 * page as int));
                assert(read_frame_txns_upto(addr, buf@, 3 + 2 * page as int)
                    =~= read_frame_txns_upto(addr, buf@, 2 + 2 * page as int).push(
                    page_read_data_txn(addr, buf@, page as int),
                ));
                assert(self.transcript() =~= old(self).transcript() + read_frame_txns_upto(
                    addr,
                    buf@,
                    3 + 2 * page as int,
                ));
            }
            page = page + 1;
        }
        Ok(())
    }

    /// Poll the status register and report the busy flag.
    pub fn is_busy(&mut self) -> (r: Result<bool, BusError>)
        ensures
            final(self).spec_address() == old(self).spec_address(),
            r matches Ok(b) ==> exists|status: u8|
                {
                    &&& final(self).transcript() == old(self).transcript().push(
                        Txn::WriteRead {
                            addr: old(self).spec_address(),
                            sent: seq![CONTROL_COMMAND_MORE],
                            received: seq![status],
                        },
                    )
                    &&& b == busy_flag(status)
                },
            r is Err ==> final(self).transcript() == old(self).transcript(),
    {
        self.sh.is_busy()
    }

    /// Poll the status register until the controller reports idle, at most
    /// `max_polls` times. `Ok(true)` means idle was seen; `Ok(false)` means
    /// the budget ran out with the controller still busy. A zero budget
    /// polls nothing and cannot fail.
    pub fn wait_while_busy(&mut self, max_polls: usize) -> (r: Result<bool, BusError>)
        ensures
            final(self).spec_address() == old(self).spec_address(),
            max_polls == 0 ==> r is Ok,
            r matches Ok(idle) ==> exists|ss: Seq<u8>|
                {
                    &&& final(self).transcript() == old(self).transcript() + status_read_txns(
                        old(self).spec_address(),
                        ss,
                    )
                    &&& ss.len() <= max_polls
                    &&& forall|i: int| 0 <= i < ss.len() - 1 ==> busy_flag(#[trigger] ss[i])
                    &&& idle ==> ss.len() >= 1 && !busy_flag(ss[ss.len() - 1])
                    &&& !idle ==> ss.len() == max_polls && (ss.len() == 0 || busy_flag(
                        ss[ss.len() - 1],
                    ))
                },
            r is Err ==> exists|ss: Seq<u8>|
                {
                    &&& final(self).transcript() == old(self).transcript() + status_read_txns(
                        old(self).spec_address(),
                        ss,
                    )
                    &&& ss.len() <= max_polls
                    &&& forall|i: int| 0 <= i < ss.len() ==> busy_flag(#[trigger] ss[i])
                },
    {
        let ghost addr = old(self).spec_address();
        let ghost mut ss: Seq<u8> = Seq::empty();
        let mut polls: usize = 0;
        proof {
            assert(status_read_txns(addr, ss) =~= Seq::<Txn>::empty());
            assert(self.transcript() =~= old(self).transcript() + status_read_txns(addr, ss));
        }
        while polls < max_polls
            invariant
                polls <= max_polls,
                ss.len() == polls,
                self.spec_address() == addr,
                addr == old(self).spec_address(),
                forall|i: int| 0 <= i < ss.len() ==> busy_flag(#[trigger] ss[i]),
                self.transcript() == old(self).transcript() + status_read_txns(addr, ss),
            decreases max_polls - polls,
        {
            let ghost prev = self.transcript();
            match self.sh.is_busy() {
                Ok(b) => {
                    proof {
                        let status = choose|status: u8|
                            {
                                &&& self.transcript() == prev.push(
                                    Txn::WriteRead {
                                        addr,
                                        sent: seq![CONTROL_COMMAND_MORE],
                                        received: seq![status],
                                    },
                                )
                                &&& b == busy_flag(status)
                            };
                        assert(status_read_txns(addr, ss.push(status)) =~= status_read_txns(
                            addr,
                            ss,
                        ).push(
                            Txn::WriteRead {
                                addr,
                                sent: seq![CONTROL_COMMAND_MORE],
                                received: seq![status],
                            },
                        ));
                        assert(self.transcript() =~= old(self).transcript() + status_read_txns(
                            addr,
                            ss.push(status),
                        ));
                        ss = ss.push(status);
                    }
                    if !b {
                        proof {
                            assert(!busy_flag(ss[ss.len() - 1]));
                        }
                        return Ok(true);
                    }
                },
                Err(e) => {
                    return Err(e);
                },
            }
            polls = polls + 1;
        }
        Ok(false)
    }

    /// Give the bus handle back; the session is consumed, so no further
    /// operation can run through it.
    pub fn release(self) -> (r: T)
        ensures
            r == self.spec_bus(),
    {
        self.sh.release()
    }
}

} // verus!
