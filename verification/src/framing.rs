//! Wire framing of bus transactions.
//!
//! Every transaction starts with a control byte that tells the controller
//! whether the bytes that follow are commands or pixel data. A pure command
//! transaction uses the final-command control byte once. A command-then-data
//! transaction prefixes every command byte with the continuation control
//! byte — a two-byte command misread as two one-byte commands would corrupt
//! controller state — and then switches to the data phase with the data
//! control byte.

use vstd::prelude::*;

use crate::codec::Command;

verus! {

/// Control byte: the next byte is a command and more control bytes follow.
pub const CONTROL_COMMAND_MORE: u8 = 0x80;

/// Control byte: all remaining bytes are commands.
pub const CONTROL_COMMAND_LAST: u8 = 0x00;

/// Control byte: all remaining bytes are pixel data.
pub const CONTROL_DATA: u8 = 0x40;

/// One addressed transaction as seen on the bus, for specifications.
pub enum Txn {
    /// Bytes sent to the device at the given address.
    Write { addr: u8, bytes: Seq<u8> },
    /// Bytes sent, then bytes received, in one combined transaction.
    WriteRead { addr: u8, sent: Seq<u8>, received: Seq<u8> },
}

/// Every command in the sequence is within its field ranges.
pub open spec fn all_valid(cmds: Seq<Command>) -> bool {
    forall|i: int| 0 <= i < cmds.len() ==> #[trigger] cmds[i].valid()
}

/// Concatenation of the encodings of a command sequence.
pub open spec fn encode_all(cmds: Seq<Command>) -> Seq<u8>
    decreases cmds.len(),
{
    if cmds.len() == 0 {
        Seq::empty()
    } else {
        cmds[0].spec_encode() + encode_all(cmds.skip(1))
    }
}

/// The separator inserted between each pair of adjacent bytes.
pub open spec fn interspersed(bytes: Seq<u8>, sep: u8) -> Seq<u8>
    decreases bytes.len(),
{
    if bytes.len() <= 1 {
        bytes
    } else {
        seq![bytes[0], sep] + interspersed(bytes.skip(1), sep)
    }
}

/// The bytes of a pure command transaction.
pub open spec fn command_txn_bytes(cmds: Seq<Command>) -> Seq<u8> {
    seq![CONTROL_COMMAND_LAST] + encode_all(cmds)
}

/// The bytes of a pure data transaction.
pub open spec fn data_txn_bytes(data: Seq<u8>) -> Seq<u8> {
    seq![CONTROL_DATA] + data
}

/// The bytes of a command-then-data transaction: each command byte behind a
/// continuation control byte, then the data phase.
pub open spec fn command_data_txn_bytes(cmds: Seq<Command>, data: Seq<u8>) -> Seq<u8> {
    seq![CONTROL_COMMAND_MORE] + interspersed(encode_all(cmds), CONTROL_COMMAND_MORE)
        + seq![CONTROL_DATA] + data
}

/// Appending a command to a sequence appends its encoding to the stream.
pub proof fn lemma_encode_all_push(cmds: Seq<Command>, c: Command)
    ensures
        encode_all(cmds.push(c)) == encode_all(cmds) + c.spec_encode(),
    decreases cmds.len(),
{
    let p = cmds.push(c);
    if cmds.len() == 0 {
        assert(p[0] == c);
        assert(p.skip(1) =~= Seq::<Command>::empty());
        assert(encode_all(p.skip(1)) == Seq::<u8>::empty());
        assert(encode_all(p) == c.spec_encode() + Seq::<u8>::empty());
        assert(encode_all(p) =~= encode_all(cmds) + c.spec_encode());
    } else {
        assert(p.skip(1) =~= cmds.skip(1).push(c));
        lemma_encode_all_push(cmds.skip(1), c);
        assert(p[0] == cmds[0]);
        assert(encode_all(p) == cmds[0].spec_encode() + (encode_all(cmds.skip(1))
            + c.spec_encode()));
        assert(encode_all(p) =~= encode_all(cmds) + c.spec_encode());
    }
}

/// Encode a sequence of valid commands into one byte stream.
pub fn encode_commands(cmds: &Vec<Command>) -> (r: Vec<u8>)
    requires
        all_valid(cmds@),
    ensures
        r@ == encode_all(cmds@),
{
    let mut out: Vec<u8> = Vec::new();
    let mut i: usize = 0;
    while i < cmds.len()
        invariant
            i <= cmds.len(),
            all_valid(cmds@),
            out@ == encode_all(cmds@.take(i as int)),
        decreases cmds.len() - i,
    {
        let mut enc = cmds[i].encode();
        proof {
            lemma_encode_all_push(cmds@.take(i as int), cmds@[i as int]);
            assert(cmds@.take(i as int).push(cmds@[i as int]) =~= cmds@.take(i + 1));
        }
        out.append(&mut enc);
        i = i + 1;
    }
    proof {
        assert(cmds@.take(cmds@.len() as int) =~= cmds@);
    }
    out
}

/// Relies on itertools's intersperse: the separator is inserted between each
/// pair of adjacent items of the iterator, and nowhere else.
#[verifier::external_body]
fn intersperse_bytes(bytes: &Vec<u8>, sep: u8) -> (r: Vec<u8>)
    ensures
        r@ == interspersed(bytes@, sep),
{
    itertools::Itertools::intersperse(bytes.iter().cloned(), sep).collect()
}

/// Build a pure command transaction.
pub fn build_command_txn(cmds: &Vec<Command>) -> (r: Vec<u8>)
    requires
        all_valid(cmds@),
    ensures
        r@ == command_txn_bytes(cmds@),
{
    let mut out: Vec<u8> = Vec::new();
    out.push(CONTROL_COMMAND_LAST);
    let mut enc = encode_commands(cmds);
    out.append(&mut enc);
    proof {
        assert(out@ =~= command_txn_bytes(cmds@));
    }
    out
}

/// Build a pure data transaction.
pub fn build_data_txn(data: &Vec<u8>) -> (r: Vec<u8>)
    ensures
        r@ == data_txn_bytes(data@),
{
    let mut out: Vec<u8> = Vec::new();
    out.push(CONTROL_DATA);
    out.extend_from_slice(data.as_slice());
    proof {
        assert(out@ =~= data_txn_bytes(data@));
    }
    out
}

/// Build a command-then-data transaction.
pub fn build_command_data_txn(cmds: &Vec<Command>, data: &Vec<u8>) -> (r: Vec<u8>)
    requires
        all_valid(cmds@),
    ensures
        r@ == command_data_txn_bytes(cmds@, data@),
{
    let mut out: Vec<u8> = Vec::new();
    out.push(CONTROL_COMMAND_MORE);
    let enc = encode_commands(cmds);
    let mut mid = intersperse_bytes(&enc, CONTROL_COMMAND_MORE);
    out.append(&mut mid);
    out.push(CONTROL_DATA);
    out.extend_from_slice(data.as_slice());
    proof {
        assert(out@ =~= command_data_txn_bytes(cmds@, data@));
    }
    out
}

} // verus!
