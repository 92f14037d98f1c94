//! A simulated controller behind the bus interface.
//!
//! The simulation decodes the same framing the runner produces — the
//! inverse knowledge of the wire protocol — and keeps a model of the
//! controller: its RAM, its address cursor and its addressing mode. It
//! backs the round-trip reasoning and lets tests drive every layer without
//! hardware. Conventions of the model: the cursor saturates at the RAM
//! edge instead of wrapping, configuration bytes that do not affect
//! addressing are accepted and ignored, and the status register always
//! reads back idle.

use vstd::prelude::*;

use crate::bus::BusError;
use crate::bus::WriteIter;
use crate::codec::AddressMode;
use crate::framing::Txn;
use crate::framing::CONTROL_COMMAND_LAST;
use crate::framing::CONTROL_COMMAND_MORE;
use crate::framing::CONTROL_DATA;

verus! {

/// Bytes of controller RAM: 16 pages of 128 columns.
pub const SIM_RAM_BYTES: usize = 2048;

/// The controller model: RAM, address cursor, addressing mode, and whether
/// the command decoder waits for the argument byte of a two-byte command.
pub struct DevModel {
    pub ram: Seq<u8>,
    pub page: int,
    pub col: int,
    pub mode: AddressMode,
    pub pending: bool,
}

/// Model well-formedness. The cursor may sit just past the addressable
/// edge — writes there are dropped — which keeps every command stream
/// total.
pub open spec fn dev_wf(m: DevModel) -> bool {
    &&& m.ram.len() == SIM_RAM_BYTES
    &&& 0 <= m.page <= 16
    &&& 0 <= m.col <= 143
}

/// The model at power-on: blank RAM, cursor at the origin, page mode.
pub open spec fn initial_dev() -> DevModel {
    DevModel {
        ram: Seq::new(SIM_RAM_BYTES as nat, |i: int| 0u8),
        page: 0,
        col: 0,
        mode: AddressMode::Page,
        pending: false,
    }
}

/// Opcodes that carry their argument in a second command byte.
pub open spec fn two_byte_opcode(b: u8) -> bool {
    b == 0x81 || b == 0xA8 || b == 0xD3 || b == 0xAD || b == 0xD5 || b == 0xD9 || b == 0xDB
        || b == 0xDC
}

/// One command byte: addressing commands move the cursor or switch the
/// mode; a two-byte opcode makes the next command byte its ignored
/// argument; every other byte is configuration the model does not track.
pub open spec fn step_cmd(m: DevModel, b: u8) -> DevModel {
    if m.pending {
        DevModel { pending: false, ..m }
    } else if b < 0x10 {
        DevModel { col: (m.col / 16) * 16 + b, ..m }
    } else if b < 0x18 {
        DevModel { col: (b - 0x10) * 16 + m.col % 16, ..m }
    } else if b == 0x20 {
        DevModel { mode: AddressMode::Page, ..m }
    } else if b == 0x21 {
        DevModel { mode: AddressMode::Column, ..m }
    } else if 0xB0 <= b < 0xC0 {
        DevModel { page: (b - 0xB0) as int, ..m }
    } else if two_byte_opcode(b) {
        DevModel { pending: true, ..m }
    } else {
        m
    }
}

/// One data byte lands at the cursor, which then advances along the page
/// in page mode or down the column otherwise; at the RAM edge the byte is
/// dropped.
pub open spec fn step_data(m: DevModel, b: u8) -> DevModel {
    if m.page < 16 && m.col < 128 {
        let m2 = DevModel { ram: m.ram.update(m.page * 128 + m.col, b), ..m };
        if m.mode is Page {
            DevModel { col: m.col + 1, ..m2 }
        } else {
            DevModel { page: m.page + 1, ..m2 }
        }
    } else {
        m
    }
}

/// A stream of command bytes, in order.
pub open spec fn apply_cmds(m: DevModel, bytes: Seq<u8>) -> DevModel
    decreases bytes.len(),
{
    if bytes.len() == 0 {
        m
    } else {
        apply_cmds(step_cmd(m, bytes[0]), bytes.skip(1))
    }
}

/// A stream of data bytes, in order.
pub open spec fn apply_data(m: DevModel, bytes: Seq<u8>) -> DevModel
    decreases bytes.len(),
{
    if bytes.len() == 0 {
        m
    } else {
        apply_data(step_data(m, bytes[0]), bytes.skip(1))
    }
}

/// The continuation framing after its first control byte: a command byte,
/// then a control byte choosing another command, the data phase, or — on
/// anything malformed — the end of interpretation.
pub open spec fn apply_inter_cmd(m: DevModel, bytes: Seq<u8>) -> DevModel
    decreases bytes.len(),
{
    if bytes.len() == 0 {
        m
    } else {
        let m2 = step_cmd(m, bytes[0]);
        if bytes.len() == 1 {
            m2
        } else if bytes[1] == CONTROL_DATA {
            apply_data(m2, bytes.skip(2))
        } else if bytes[1] == CONTROL_COMMAND_MORE {
            apply_inter_cmd(m2, bytes.skip(2))
        } else {
            m2
        }
    }
}

/// The pending-argument flag is framing state local to one transaction.
pub open spec fn clear_pending(m: DevModel) -> DevModel {
    DevModel { pending: false, ..m }
}

/// One whole bus write: the first byte selects the framing, the rest is
/// interpreted accordingly.
pub open spec fn apply_write(m: DevModel, bytes: Seq<u8>) -> DevModel {
    clear_pending(
        if bytes.len() == 0 {
            m
        } else if bytes[0] == CONTROL_COMMAND_LAST {
            apply_cmds(m, bytes.skip(1))
        } else if bytes[0] == CONTROL_DATA {
            apply_data(m, bytes.skip(1))
        } else if bytes[0] == CONTROL_COMMAND_MORE {
            apply_inter_cmd(m, bytes.skip(1))
        } else {
            m
        },
    )
}

/// The bytes a read of length `n` returns: RAM from the cursor onward,
/// zeroes past the addressable edge.
pub open spec fn read_bytes(m: DevModel, n: nat) -> Seq<u8> {
    Seq::new(
        n,
        |i: int|
            if m.page < 16 && m.col + i < 128 {
                m.ram[m.page * 128 + m.col + i]
            } else {
                0u8
            },
    )
}

/// Reading advances the column cursor, saturating at the RAM edge.
pub open spec fn after_read(m: DevModel, n: nat) -> DevModel {
    DevModel {
        col: if m.col + n <= 128 {
            m.col + n
        } else {
            128
        },
        ..m
    }
}

/// What a combined write-then-read returns for the given write bytes: RAM
/// for the data control byte, an idle status for the status request, and
/// zeroes for anything else.
pub open spec fn dev_response(m: DevModel, sent: Seq<u8>, n: nat) -> Seq<u8> {
    if sent == seq![CONTROL_DATA] {
        read_bytes(m, n)
    } else {
        Seq::new(n, |i: int| 0u8)
    }
}

/// The model after a combined write-then-read.
pub open spec fn dev_after_write_read(m: DevModel, sent: Seq<u8>, n: nat) -> DevModel {
    if sent == seq![CONTROL_DATA] {
        after_read(m, n)
    } else {
        m
    }
}

/// The model after one transaction.
pub open spec fn dev_after_txn(m: DevModel, t: Txn) -> DevModel {
    match t {
        Txn::Write { addr, bytes } => apply_write(m, bytes),
        Txn::WriteRead { addr, sent, received } => dev_after_write_read(m, sent, received.len()),
    }
}

/// The model after a sequence of transactions, in order.
pub open spec fn dev_runs(m: DevModel, ts: Seq<Txn>) -> DevModel
    decreases ts.len(),
{
    if ts.len() == 0 {
        m
    } else {
        dev_runs(dev_after_txn(m, ts[0]), ts.skip(1))
    }
}

/// Whether each read in the transaction sequence returned exactly what the
/// model holds at that point: the sequence is a faithful record of this
/// device.
pub open spec fn dev_accepts(m: DevModel, ts: Seq<Txn>) -> bool
    decreases ts.len(),
{
    if ts.len() == 0 {
        true
    } else {
        let head_ok = match ts[0] {
            Txn::Write { addr, bytes } => true,
            Txn::WriteRead { addr, sent, received } => received == dev_response(
                m,
                sent,
                received.len(),
            ),
        };
        head_ok && dev_accepts(dev_after_txn(m, ts[0]), ts.skip(1))
    }
}

/// The executable controller model.
#[derive(Debug)]
pub struct SimDevice {
    ram: Vec<u8>,
    page: u8,
    col: u8,
    mode: AddressMode,
    pending: bool,
}

impl SimDevice {
    /// The model this device is in.
    pub closed spec fn model(&self) -> DevModel {
        DevModel {
            ram: self.ram@,
            page: self.page as int,
            col: self.col as int,
            mode: self.mode,
            pending: self.pending,
        }
    }

    /// The device starts in the power-on model.
    pub fn new() -> (r: Self)
        ensures
            r.model() == initial_dev(),
            dev_wf(r.model()),
    {
        let mut ram: Vec<u8> = Vec::new();
        let mut i: usize = 0;
        while i < SIM_RAM_BYTES
            invariant
                i <= SIM_RAM_BYTES,
                ram@.len() == i,
                forall|q: int| 0 <= q < i ==> ram@[q] == 0u8,
            decreases SIM_RAM_BYTES - i,
        {
            ram.push(0);
            i = i + 1;
        }
        let r = SimDevice { ram, page: 0, col: 0, mode: AddressMode::Page, pending: false };
        proof {
            assert(r.model().ram =~= initial_dev().ram);
            assert(r.model() == initial_dev());
        }
        r
    }

    fn step_cmd_exec(&mut self, b: u8)
        requires
            dev_wf(old(self).model()),
        ensures
            dev_wf(final(self).model()),
            final(self).model() == step_cmd(old(self).model(), b),
    {
        if self.pending {
            self.pending = false;
        } else if b < 0x10 {
            self.col = (self.col / 16) * 16 + b;
        } else if b < 0x18 {
            self.col = (b - 0x10) * 16 + self.col % 16;
        } else if b == 0x20 {
            self.mode = AddressMode::Page;
        } else if b == 0x21 {
            self.mode = AddressMode::Column;
        } else if 0xB0 <= b && b < 0xC0 {
            self.page = b - 0xB0;
        } else if b == 0x81 || b == 0xA8 || b == 0xD3 || b == 0xAD || b == 0xD5 || b == 0xD9
            || b == 0xDB || b == 0xDC {
            self.pending = true;
        }
    }

    fn step_data_exec(&mut self, b: u8)
        requires
            dev_wf(old(self).model()),
        ensures
            dev_wf(final(self).model()),
            final(self).model() == step_data(old(self).model(), b),
    {
        if self.page < 16 && self.col < 128 {
            let idx: usize = (self.page as usize) * 128 + (self.col as usize);
            self.ram.set(idx, b);
            match self.mode {
                AddressMode::Page => {
                    self.col = self.col + 1;
                },
                AddressMode::Column => {
                    self.page = self.page + 1;
                },
            }
        }
    }

    fn apply_data_from(&mut self, bytes: &Vec<u8>, from: usize)
        requires
            dev_wf(old(self).model()),
            from <= bytes@.len(),
        ensures
            dev_wf(final(self).model()),
            final(self).model() == apply_data(old(self).model(), bytes@.skip(from as int)),
    {
        let ghost target = apply_data(old(self).model(), bytes@.skip(from as int));
        let mut i: usize = from;
        while i < bytes.len()
            invariant
                from <= i <= bytes@.len(),
                dev_wf(self.model()),
                apply_data(self.model(), bytes@.skip(i as int)) == target,
            decreases bytes@.len() - i,
        {
            let b = bytes[i];
            proof {
                assert(bytes@.skip(i as int)[0] == b);
                assert(bytes@.skip(i as int).skip(1) =~= bytes@.skip(i as int + 1));
            }
            self.step_data_exec(b);
            i = i + 1;
        }
        proof {
            assert(bytes@.skip(bytes@.len() as int) =~= Seq::<u8>::empty());
        }
    }

    fn apply_cmds_from(&mut self, bytes: &Vec<u8>, from: usize)
        requires
            dev_wf(old(self).model()),
            from <= bytes@.len(),
        ensures
            dev_wf(final(self).model()),
            final(self).model() == apply_cmds(old(self).model(), bytes@.skip(from as int)),
    {
        let ghost target = apply_cmds(old(self).model(), bytes@.skip(from as int));
        let mut i: usize = from;
        while i < bytes.len()
            invariant
                from <= i <= bytes@.len(),
                dev_wf(self.model()),
                apply_cmds(self.model(), bytes@.skip(i as int)) == target,
            decreases bytes@.len() - i,
        {
            let b = bytes[i];
            proof {
                assert(bytes@.skip(i as int)[0] == b);
                assert(bytes@.skip(i as int).skip(1) =~= bytes@.skip(i as int + 1));
            }
            self.step_cmd_exec(b);
            i = i + 1;
        }
        proof {
            assert(bytes@.skip(bytes@.len() as int) =~= Seq::<u8>::empty());
        }
    }

    fn apply_inter_from(&mut self, bytes: &Vec<u8>, from: usize)
        requires
            dev_wf(old(self).model()),
            from <= bytes@.len(),
        ensures
            dev_wf(final(self).model()),
            final(self).model() == apply_inter_cmd(old(self).model(), bytes@.skip(from as int)),
    {
        let ghost target = apply_inter_cmd(old(self).model(), bytes@.skip(from as int));
        let mut i: usize = from;
        while i < bytes.len()
            invariant
                from <= i <= bytes@.len(),
                dev_wf(self.model()),
                apply_inter_cmd(self.model(), bytes@.skip(i as int)) == target,
            decreases bytes@.len() - i,
        {
            let ghost before = self.model();
            let ghost rest = bytes@.skip(i as int);
            let b = bytes[i];
            proof {
                assert(rest[0] == b);
            }
            self.step_cmd_exec(b);
            if i + 1 >= bytes.len() {
                proof {
                    assert(rest.len() == 1);
                }
                i = bytes.len();
            } else {
                let ctl = bytes[i + 1];
                proof {
                    assert(rest[1] == ctl);
                    assert(rest.skip(2) =~= bytes@.skip(i as int + 2));
                }
                if ctl == CONTROL_DATA {
                    self.apply_data_from(bytes, i + 2);
                    i = bytes.len();
                } else if ctl == CONTROL_COMMAND_MORE {
                    i = i + 2;
                } else {
                    i = bytes.len();
                }
            }
            proof {
                assert(bytes@.skip(bytes@.len() as int) =~= Seq::<u8>::empty());
            }
        }
        proof {
            assert(bytes@.skip(bytes@.len() as int) =~= Seq::<u8>::empty());
        }
    }

    /// Runtime check of model well-formedness, so that callers that cannot
    /// carry the invariant stay safe.
    fn wf_check(&self) -> (r: bool)
        ensures
            r == dev_wf(self.model()),
    {
        self.ram.len() == SIM_RAM_BYTES && self.page <= 16 && self.col <= 143
    }

    /// Interpret one whole bus write. A device whose model is not
    /// well-formed — which no construction of this module produces —
    /// ignores the write.
    pub fn process_write(&mut self, bytes: &Vec<u8>)
        ensures
            dev_wf(old(self).model()) ==> {
                &&& dev_wf(final(self).model())
                &&& final(self).model() == apply_write(old(self).model(), bytes@)
            },
    {
        if !self.wf_check() {
            return ;
        }
        if bytes.len() == 0 {
            self.pending = false;
            return;
        }
        let c0 = bytes[0];
        if c0 == CONTROL_COMMAND_LAST {
            self.apply_cmds_from(bytes, 1);
        } else if c0 == CONTROL_DATA {
            self.apply_data_from(bytes, 1);
        } else if c0 == CONTROL_COMMAND_MORE {
            self.apply_inter_from(bytes, 1);
        }
        self.pending = false;
    }

    /// Answer one read of `buf.len()` bytes and advance the cursor. A
    /// device whose model is not well-formed ignores the read.
    pub fn process_read(&mut self, buf: &mut Vec<u8>)
        ensures
            final(buf)@.len() == old(buf)@.len(),
            dev_wf(old(self).model()) ==> {
                &&& dev_wf(final(self).model())
                &&& final(buf)@ == read_bytes(old(self).model(), old(buf)@.len())
                &&& final(self).model() == after_read(old(self).model(), old(buf)@.len())
            },
    {
        if !self.wf_check() {
            return ;
        }
        let n = buf.len();
        let mut i: usize = 0;
        while i < n
            invariant
                i <= n,
                dev_wf(self.model()),
                self.model() == old(self).model(),
                buf@.len() == n,
                forall|q: int| 0 <= q < i ==> buf@[q] == read_bytes(old(self).model(), n as nat)[q],
            decreases n - i,
        {
            let b: u8 = if self.page < 16 && i < 128 && (self.col as usize) < 128 - i {
                self.ram[(self.page as usize) * 128 + (self.col as usize) + i]
            } else {
                0
            };
            buf.set(i, b);
            i = i + 1;
        }
        if n <= 128 && (self.col as usize) <= 128 - n {
            self.col = self.col + (n as u8);
        } else {
            self.col = 128;
        }
        proof {
            assert(buf@ =~= read_bytes(old(self).model(), n as nat));
        }
    }

    /// One byte of RAM, for inspection; out-of-range coordinates read as
    /// zero.
    pub fn ram_byte(&self, page: u8, col: u8) -> (r: u8)
        ensures
            dev_wf(self.model()) && page < 16 && col < 128 ==> r == self.model().ram[page as int
                * 128 + col as int],
    {
        if self.ram.len() == SIM_RAM_BYTES && page < 16 && col < 128 {
            self.ram[(page as usize) * 128 + (col as usize)]
        } else {
            0
        }
    }
}

/// One recorded transaction of the simulated bus.
#[derive(Debug)]
pub struct SimTxnRec {
    addr: u8,
    sent: Vec<u8>,
    received: Vec<u8>,
    is_read: bool,
}

/// The transaction a record stands for.
pub open spec fn rec_txn(r: SimTxnRec) -> Txn {
    if r.spec_is_read() {
        Txn::WriteRead { addr: r.spec_addr(), sent: r.spec_sent(), received: r.spec_received() }
    } else {
        Txn::Write { addr: r.spec_addr(), bytes: r.spec_sent() }
    }
}

impl SimTxnRec {
    /// Whether the record is a combined write-then-read.
    pub closed spec fn spec_is_read(&self) -> bool {
        self.is_read
    }

    /// The device address of the recorded transaction.
    pub closed spec fn spec_addr(&self) -> u8 {
        self.addr
    }

    /// The bytes sent.
    pub closed spec fn spec_sent(&self) -> Seq<u8> {
        self.sent@
    }

    /// The bytes received, empty for a pure write.
    pub closed spec fn spec_received(&self) -> Seq<u8> {
        self.received@
    }
}

/// Copy a byte vector.
fn copy_bytes(v: &Vec<u8>) -> (r: Vec<u8>)
    ensures
        r@ == v@,
{
    let mut out: Vec<u8> = Vec::new();
    let mut i: usize = 0;
    while i < v.len()
        invariant
            i <= v@.len(),
            out@ == v@.take(i as int),
        decreases v@.len() - i,
    {
        let b = v[i];
        out.push(b);
        proof {
            assert(v@.take(i as int + 1) =~= v@.take(i as int).push(v@[i as int]));
        }
        i = i + 1;
    }
    proof {
        assert(v@.take(v@.len() as int) =~= v@);
    }
    out
}

/// A bus whose device end is the simulated controller. Failures can be
/// injected one at a time to exercise error paths; an injected failure
/// consumes itself, performs nothing and records nothing.
#[derive(Debug)]
pub struct SimBus {
    dev: SimDevice,
    log: Vec<SimTxnRec>,
    fail_after: Option<(usize, BusError)>,
}

impl SimBus {
    /// The controller model behind the bus.
    pub open spec fn spec_dev(&self) -> DevModel {
        self.spec_device().model()
    }

    /// The simulated device.
    pub closed spec fn spec_device(&self) -> SimDevice {
        self.dev
    }

    /// A fresh bus over a powered-on controller, with an empty transcript.
    pub fn new() -> (r: Self)
        ensures
            r.transcript() == Seq::<Txn>::empty(),
            r.spec_dev() == initial_dev(),
    {
        let r = SimBus { dev: SimDevice::new(), log: Vec::new(), fail_after: None };
        proof {
            assert(r.transcript() =~= Seq::<Txn>::empty());
        }
        r
    }

    /// Make the next transaction fail with the given error.
    pub fn inject_failure(&mut self, e: BusError)
        ensures
            final(self).transcript() == old(self).transcript(),
            final(self).spec_dev() == old(self).spec_dev(),
    {
        self.fail_after = Some((0, e));
    }

    /// Let `n` more transactions through, then fail the one after them.
    pub fn inject_failure_after(&mut self, n: usize, e: BusError)
        ensures
            final(self).transcript() == old(self).transcript(),
            final(self).spec_dev() == old(self).spec_dev(),
    {
        self.fail_after = Some((n, e));
    }

    /// Tick the failure countdown before a transaction; reports the error
    /// to fail with now, if any.
    fn take_due_failure(&mut self) -> (r: Option<BusError>)
        ensures
            final(self).transcript() == old(self).transcript(),
            final(self).spec_dev() == old(self).spec_dev(),
    {
        match self.fail_after {
            Some((n, e)) => {
                if n == 0 {
                    self.fail_after = None;
                    Some(e)
                } else {
                    self.fail_after = Some((n - 1, e));
                    None
                }
            },
            None => None,
        }
    }

    /// How many transactions the bus has carried out.
    pub fn txn_count(&self) -> (r: usize)
        ensures
            r == self.transcript().len(),
    {
        self.log.len()
    }

    /// Whether the transaction at `i` was a combined write-then-read.
    pub fn txn_is_read(&self, i: usize) -> (r: bool)
        requires
            i < self.transcript().len(),
        ensures
            r == (self.transcript()[i as int] is WriteRead),
    {
        self.log[i].is_read
    }

    /// The bytes sent in the transaction at `i`.
    pub fn txn_sent(&self, i: usize) -> (r: Vec<u8>)
        requires
            i < self.transcript().len(),
        ensures
            r@ == match self.transcript()[i as int] {
                Txn::Write { addr, bytes } => bytes,
                Txn::WriteRead { addr, sent, received } => sent,
            },
    {
        copy_bytes(&self.log[i].sent)
    }

    /// The bytes received in the transaction at `i`, empty for a write.
    pub fn txn_received(&self, i: usize) -> (r: Vec<u8>)
        requires
            i < self.transcript().len(),
        ensures
            r@ == match self.transcript()[i as int] {
                Txn::Write { addr, bytes } => Seq::<u8>::empty(),
                Txn::WriteRead { addr, sent, received } => received,
            },
    {
        if self.log[i].is_read {
            copy_bytes(&self.log[i].received)
        } else {
            Vec::new()
        }
    }

    /// The device address of the transaction at `i`.
    pub fn txn_addr(&self, i: usize) -> (r: u8)
        requires
            i < self.transcript().len(),
        ensures
            r == match self.transcript()[i as int] {
                Txn::Write { addr, bytes } => addr,
                Txn::WriteRead { addr, sent, received } => addr,
            },
    {
        self.log[i].addr
    }

    /// One byte of the simulated controller's RAM; out-of-range
    /// coordinates read as zero.
    pub fn ram_byte(&self, page: u8, col: u8) -> (r: u8)
        ensures
            dev_wf(self.spec_dev()) && page < 16 && col < 128 ==> r == self.spec_dev().ram[page
                as int * 128 + col as int],
    {
        self.dev.ram_byte(page, col)
    }
}

impl WriteIter for SimBus {
    closed spec fn transcript(&self) -> Seq<Txn> {
        self.log@.map_values(|r: SimTxnRec| rec_txn(r))
    }

    fn write_iter(&mut self, address: u8, bytes: &Vec<u8>) -> (r: Result<(), BusError>) {
        match self.take_due_failure() {
            Some(e) => Err(e),
            None => {
                self.dev.process_write(bytes);
                let rec = SimTxnRec {
                    addr: address,
                    sent: copy_bytes(bytes),
                    received: Vec::new(),
                    is_read: false,
                };
                proof {
                    assert(rec_txn(rec) == (Txn::Write { addr: address, bytes: bytes@ }));
                }
                self.log.push(rec);
                proof {
                    assert(self.log@.map_values(|r: SimTxnRec| rec_txn(r)) =~= old(
                        self,
                    ).log@.map_values(|r: SimTxnRec| rec_txn(r)).push(
                        Txn::Write { addr: address, bytes: bytes@ },
                    ));
                }
                Ok(())
            },
        }
    }

    fn write_read(&mut self, address: u8, sent: &Vec<u8>, buf: &mut Vec<u8>) -> (r: Result<
        (),
        BusError,
    >) {
        match self.take_due_failure() {
            Some(e) => Err(e),
            None => {
                if sent.len() == 1 && sent[0] == CONTROL_DATA {
                    proof {
                        assert(sent@ =~= seq![CONTROL_DATA]);
                    }
                    self.dev.process_read(buf);
                } else {
                    let n = buf.len();
                    let mut i: usize = 0;
                    while i < n
                        invariant
                            i <= n,
                            buf@.len() == n,
                            forall|q: int| 0 <= q < i ==> buf@[q] == 0u8,
                        decreases n - i,
                    {
                        buf.set(i, 0);
                        i = i + 1;
                    }
                }
                let rec = SimTxnRec {
                    addr: address,
                    sent: copy_bytes(sent),
                    received: copy_bytes(buf),
                    is_read: true,
                };
                proof {
                    assert(rec_txn(rec) == (Txn::WriteRead {
                        addr: address,
                        sent: sent@,
                        received: buf@,
                    }));
                }
                self.log.push(rec);
                proof {
                    assert(self.log@.map_values(|r: SimTxnRec| rec_txn(r)) =~= old(
                        self,
                    ).log@.map_values(|r: SimTxnRec| rec_txn(r)).push(
                        Txn::WriteRead { addr: address, sent: sent@, received: buf@ },
                    ));
                }
                Ok(())
            },
        }
    }
}

} // verus!
