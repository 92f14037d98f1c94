//! The transaction runner: frames command groups and pixel data into single
//! bus writes against one fixed device address.

use vstd::prelude::*;

use crate::bus::BusError;
use crate::bus::WriteIter;
use crate::codec::Command;
use crate::framing::all_valid;
use crate::framing::build_command_data_txn;
use crate::framing::build_command_txn;
use crate::framing::build_data_txn;
use crate::framing::command_data_txn_bytes;
use crate::framing::command_txn_bytes;
use crate::framing::data_txn_bytes;
use crate::framing::Txn;
use crate::framing::CONTROL_COMMAND_MORE;
use crate::framing::CONTROL_DATA;

verus! {

/// The controller's busy flag within the status byte.
pub open spec fn busy_flag(status: u8) -> bool {
    status & 0x80 != 0
}

/// A handle on the controller: owns the bus for its lifetime and talks to
/// one fixed seven-bit device address.
#[derive(Debug)]
pub struct Sh1107<T: WriteIter> {
    bus: T,
    address: u8,
}

impl<T: WriteIter> Sh1107<T> {
    /// The owned bus handle.
    pub closed spec fn spec_bus(&self) -> T {
        self.bus
    }

    /// The device address every transaction is sent to.
    pub closed spec fn spec_address(&self) -> u8 {
        self.address
    }

    /// All transactions this handle's bus has carried out.
    pub open spec fn transcript(&self) -> Seq<Txn> {
        self.spec_bus().transcript()
    }

    /// Take ownership of the bus.
    pub fn new(i2c: T, address: u8) -> (r: Self)
        ensures
            r.spec_bus() == i2c,
            r.spec_address() == address,
    {
        Sh1107 { bus: i2c, address }
    }

    /// Send a group of commands as one command transaction.
    pub fn run(&mut self, commands: &Vec<Command>) -> (r: Result<(), BusError>)
        requires
            all_valid(commands@),
        ensures
            final(self).spec_address() == old(self).spec_address(),
            r is Ok ==> final(self).transcript() == old(self).transcript().push(
                Txn::Write {
                    addr: old(self).spec_address(),
                    bytes: command_txn_bytes(commands@),
                },
            ),
            r is Err ==> final(self).transcript() == old(self).transcript(),
    {
        let bytes = build_command_txn(commands);
        self.bus.write_iter(self.address, &bytes)
    }

    /// Send raw pixel bytes to display RAM at the current address cursor.
    pub fn write_to_ram(&mut self, buf: &Vec<u8>) -> (r: Result<(), BusError>)
        ensures
            final(self).spec_address() == old(self).spec_address(),
            r is Ok ==> final(self).transcript() == old(self).transcript().push(
                Txn::Write { addr: old(self).spec_address(), bytes: data_txn_bytes(buf@) },
            ),
            r is Err ==> final(self).transcript() == old(self).transcript(),
    {
        let bytes = build_data_txn(buf);
        self.bus.write_iter(self.address, &bytes)
    }

    /// Send a group of commands, then pixel bytes, as one transaction.
    pub fn run_then_write_to_ram(&mut self, commands: &Vec<Command>, data: &Vec<u8>) -> (r: Result<
        (),
        BusError,
    >)
        requires
            all_valid(commands@),
        ensures
            final(self).spec_address() == old(self).spec_address(),
            r is Ok ==> final(self).transcript() == old(self).transcript().push(
                Txn::Write {
                    addr: old(self).spec_address(),
                    bytes: command_data_txn_bytes(commands@, data@),
                },
            ),
            r is Err ==> final(self).transcript() == old(self).transcript(),
    {
        let bytes = build_command_data_txn(commands, data);
        self.bus.write_iter(self.address, &bytes)
    }

    /// Read `buf.len()` bytes of display RAM from the current address
    /// cursor.
    pub fn read_from_ram(&mut self, buf: &mut Vec<u8>) -> (r: Result<(), BusError>)
        ensures
            final(self).spec_address() == old(self).spec_address(),
            final(buf)@.len() == old(buf)@.len(),
            r is Ok ==> final(self).transcript() == old(self).transcript().push(
                Txn::WriteRead {
                    addr: old(self).spec_address(),
                    sent: seq![CONTROL_DATA],
                    received: final(buf)@,
                },
            ),
            r is Err ==> final(self).transcript() == old(self).transcript(),
    {
        let mut sent: Vec<u8> = Vec::new();
        sent.push(CONTROL_DATA);
        proof {
            assert(sent@ =~= seq![CONTROL_DATA]);
        }
        self.bus.write_read(self.address, &sent, buf)
    }

    /// Poll the status register and report the busy flag.
    pub fn is_busy(&mut self) -> (r: Result<bool, BusError>)
        ensures
            final(self).spec_address() == old(self).spec_address(),
            r matches Ok(b) ==> exists|status: u8|
                {
                    &&& final(self).transcript() == old(self).transcript().push(
                        Txn::WriteRead {
                            addr: old(self).spec_address(),
                            sent: seq![CONTROL_COMMAND_MORE],
                            received: seq![status],
                        },
                    )
                    &&& b == busy_flag(status)
                },
            r is Err ==> final(self).transcript() == old(self).transcript(),
    {
        let mut sent: Vec<u8> = Vec::new();
        sent.push(CONTROL_COMMAND_MORE);
        let mut buf: Vec<u8> = Vec::new();
        buf.push(0);
        proof {
            assert(sent@ =~= seq![CONTROL_COMMAND_MORE]);
            assert(buf@.len() == 1);
        }
        match self.bus.write_read(self.address, &sent, &mut buf) {
            Ok(()) => {
                let status = buf[0];
                let b = (status & 0x80) != 0;
                proof {
                    assert(buf@ =~= seq![status]);
                    assert(self.transcript() == old(self).transcript().push(
                        Txn::WriteRead {
                            addr: old(self).spec_address(),
                            sent: seq![CONTROL_COMMAND_MORE],
                            received: seq![status],
                        },
                    ));
                    assert(b == busy_flag(status));
                }
                Ok(b)
            },
            Err(e) => Err(e),
        }
    }

    /// Give the bus handle back; the handle is consumed and cannot be used
    /// again.
    pub fn release(self) -> (r: T)
        ensures
            r == self.spec_bus(),
    {
        self.bus
    }
}

} // verus!
