//! The byte-stream capability over an addressed two-wire bus.
//!
//! The protocol layer is written against this one narrow interface; the
//! transport below it (interrupt-driven, software-timed, or offloaded) is an
//! external collaborator. Implementations carry a ghost transcript of every
//! transaction performed, so that callers' contracts can state exactly which
//! bytes reach the wire and in what order.

use vstd::prelude::*;

use crate::framing::Txn;

verus! {

/// Transport-reported failure, surfaced to callers unmodified.
#[derive(Clone, Copy, PartialEq, Eq, Debug, Structural)]
pub enum BusError {
    /// Arbitration against another bus master was lost.
    ArbitrationLoss,
    /// A byte was not acknowledged by the device.
    NoAcknowledge,
    /// The transfer was aborted.
    Abort,
}

/// A device that accepts addressed byte-stream writes, and reads that follow
/// a write within one transaction.
///
/// On failure nothing is recorded: the transaction did not take effect and
/// the error is the caller's to handle — this layer never retries.
pub trait WriteIter: Sized {
    /// All transactions carried out so far, oldest first.
    spec fn transcript(&self) -> Seq<Txn>;

    /// Write `bytes` to the device at `address`.
    fn write_iter(&mut self, address: u8, bytes: &Vec<u8>) -> (r: Result<(), BusError>)
        ensures
            r is Ok ==> final(self).transcript() == old(self).transcript().push(
                Txn::Write { addr: address, bytes: bytes@ },
            ),
            r is Err ==> final(self).transcript() == old(self).transcript(),
    ;

    /// Write `sent` to the device at `address`, then read exactly
    /// `buf.len()` bytes into `buf` in the same transaction.
    fn write_read(&mut self, address: u8, sent: &Vec<u8>, buf: &mut Vec<u8>) -> (r: Result<
        (),
        BusError,
    >)
        ensures
            final(buf)@.len() == old(buf)@.len(),
            r is Ok ==> final(self).transcript() == old(self).transcript().push(
                Txn::WriteRead { addr: address, sent: sent@, received: final(buf)@ },
            ),
            r is Err ==> final(self).transcript() == old(self).transcript(),
    ;
}

} // verus!
