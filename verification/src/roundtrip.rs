//! The round-trip law: a frame written page by page to a faithful
//! controller and then read back page by page comes back byte-identical.
//!
//! The session's contracts pin the exact transaction bytes; the simulated
//! controller model pins what those bytes do to RAM and what each read
//! returns. This module connects the two.

use vstd::prelude::*;

use crate::codec::AddressMode;
use crate::codec::Command;
use crate::framing::command_data_txn_bytes;
use crate::framing::command_txn_bytes;
use crate::framing::encode_all;
use crate::framing::interspersed;
use crate::framing::Txn;
use crate::framing::CONTROL_COMMAND_MORE;
use crate::framing::CONTROL_DATA;
use crate::sim::after_read;
use crate::sim::apply_cmds;
use crate::sim::apply_data;
use crate::sim::apply_inter_cmd;
use crate::sim::apply_write;
use crate::sim::dev_accepts;
use crate::sim::dev_after_txn;
use crate::sim::dev_response;
use crate::sim::dev_runs;
use crate::sim::dev_wf;
use crate::session::Destination;
use crate::sim::read_bytes;
use crate::sim::step_cmd;
use crate::sim::step_data;
use crate::sim::DevModel;
use crate::sim::SIM_RAM_BYTES;

verus! {

/// Running a concatenation of transactions runs the parts in order.
pub proof fn lemma_dev_runs_concat(m: DevModel, s: Seq<Txn>, t: Seq<Txn>)
    ensures
        dev_runs(m, s + t) == dev_runs(dev_runs(m, s), t),
    decreases s.len(),
{
    if s.len() == 0 {
        assert(s + t =~= t);
    } else {
        assert((s + t)[0] == s[0]);
        assert((s + t).skip(1) =~= s.skip(1) + t);
        lemma_dev_runs_concat(dev_after_txn(m, s[0]), s.skip(1), t);
    }
}

/// A concatenation of transactions is a faithful record exactly when its
/// first part is and its second part is, from the state the first part
/// leaves.
pub proof fn lemma_dev_accepts_concat(m: DevModel, s: Seq<Txn>, t: Seq<Txn>)
    ensures
        dev_accepts(m, s + t) == (dev_accepts(m, s) && dev_accepts(dev_runs(m, s), t)),
    decreases s.len(),
{
    if s.len() == 0 {
        assert(s + t =~= t);
    } else {
        assert((s + t)[0] == s[0]);
        assert((s + t).skip(1) =~= s.skip(1) + t);
        lemma_dev_accepts_concat(dev_after_txn(m, s[0]), s.skip(1), t);
    }
}

/// The encoding of a single command.
proof fn lemma_encode_one(c: Command)
    ensures
        encode_all(seq![c]) == c.spec_encode(),
{
    assert(seq![c].skip(1) =~= Seq::<Command>::empty());
    assert(encode_all(Seq::<Command>::empty()) == Seq::<u8>::empty());
    assert(encode_all(seq![c]) =~= c.spec_encode());
}

/// The encoding of a pair of commands.
proof fn lemma_encode_two(c1: Command, c2: Command)
    ensures
        encode_all(seq![c1, c2]) == c1.spec_encode() + c2.spec_encode(),
{
    assert(seq![c1, c2].skip(1) =~= seq![c2]);
    lemma_encode_one(c2);
    assert(encode_all(seq![c1, c2]) =~= c1.spec_encode() + c2.spec_encode());
}

/// One unfolding of the command-stream interpreter.
proof fn lemma_apply_cmds_step(m: DevModel, bytes: Seq<u8>)
    requires
        bytes.len() >= 1,
    ensures
        apply_cmds(m, bytes) == apply_cmds(step_cmd(m, bytes[0]), bytes.skip(1)),
{
}

/// The empty command stream does nothing.
proof fn lemma_apply_cmds_empty(m: DevModel)
    ensures
        apply_cmds(m, Seq::<u8>::empty()) == m,
{
}

/// In the continuation framing, a command byte followed by another
/// continuation control byte steps the command and goes on.
proof fn lemma_inter_step(m: DevModel, cmd: u8, rest: Seq<u8>)
    ensures
        apply_inter_cmd(m, seq![cmd, CONTROL_COMMAND_MORE] + rest) == apply_inter_cmd(
            step_cmd(m, cmd),
            rest,
        ),
{
    let bytes = seq![cmd, CONTROL_COMMAND_MORE] + rest;
    assert(bytes[0] == cmd);
    assert(bytes[1] == CONTROL_COMMAND_MORE);
    assert(bytes.skip(2) =~= rest);
}

/// In the continuation framing, a command byte followed by the data
/// control byte steps the command and enters the data phase.
proof fn lemma_inter_data(m: DevModel, cmd: u8, data: Seq<u8>)
    ensures
        apply_inter_cmd(m, seq![cmd, CONTROL_DATA] + data) == apply_data(step_cmd(m, cmd), data),
{
    let bytes = seq![cmd, CONTROL_DATA] + data;
    assert(bytes[0] == cmd);
    assert(bytes[1] == CONTROL_DATA);
    assert(bytes.skip(2) =~= data);
}

/// A data burst that fits in the current page lands contiguously at the
/// cursor and advances it by its length; nothing else changes.
proof fn lemma_apply_data_run(m: DevModel, data: Seq<u8>)
    requires
        dev_wf(m),
        m.mode is Page,
        m.page < 16,
        m.col + data.len() <= 128,
    ensures
        ({
            let m2 = apply_data(m, data);
            &&& dev_wf(m2)
            &&& m2.page == m.page
            &&& m2.mode == m.mode
            &&& m2.pending == m.pending
            &&& m2.col == m.col + data.len()
            &&& m2.ram.len() == m.ram.len()
            &&& forall|i: int|
                0 <= i < SIM_RAM_BYTES ==> m2.ram[i] == (if m.page * 128 + m.col <= i < m.page * 128
                    + m.col + data.len() {
                    data[i - (m.page * 128 + m.col)]
                } else {
                    m.ram[i]
                })
        }),
    decreases data.len(),
{
    if data.len() > 0 {
        let m1 = step_data(m, data[0]);
        lemma_apply_data_run(m1, data.skip(1));
    }
}

/// The transaction that selects page addressing mode only switches the
/// mode.
proof fn lemma_apply_mode_page(m: DevModel)
    requires
        dev_wf(m),
        !m.pending,
    ensures
        ({
            let m2 = apply_write(
                m,
                command_txn_bytes(seq![Command::SetAddressMode(AddressMode::Page)]),
            );
            &&& dev_wf(m2)
            &&& m2 == (DevModel { mode: AddressMode::Page, pending: false, ..m })
        }),
{
    let cmds = seq![Command::SetAddressMode(AddressMode::Page)];
    lemma_encode_one(cmds[0]);
    assert(encode_all(cmds) =~= seq![0x20u8]);
    let bytes = command_txn_bytes(cmds);
    assert(bytes =~= seq![0x00u8, 0x20u8]);
    let rest = bytes.skip(1);
    assert(rest =~= seq![0x20u8]);
    lemma_apply_cmds_step(m, rest);
    assert(rest.skip(1) =~= Seq::<u8>::empty());
    lemma_apply_cmds_empty(step_cmd(m, 0x20));
    assert(apply_cmds(m, rest) == step_cmd(m, 0x20));
}

/// The command transaction that positions the cursor at column zero of
/// page `p` does exactly that, whatever the cursor held before.
proof fn lemma_apply_position_cmd(m: DevModel, p: u8)
    requires
        dev_wf(m),
        !m.pending,
        p < 16,
    ensures
        ({
            let m2 = apply_write(
                m,
                command_txn_bytes(seq![Command::SetColumnAddress(0), Command::SetPageAddress(p)]),
            );
            &&& dev_wf(m2)
            &&& m2 == (DevModel { col: 0, page: p as int, pending: false, ..m })
        }),
{
    let b3: u8 = (0xB0 + p) as u8;
    let cmds = seq![Command::SetColumnAddress(0), Command::SetPageAddress(p)];
    lemma_encode_two(cmds[0], cmds[1]);
    assert(cmds[0].spec_encode() =~= seq![0x00u8, 0x10u8]);
    assert(cmds[1].spec_encode() =~= seq![b3]);
    assert(encode_all(cmds) =~= seq![0x00u8, 0x10u8, b3]);
    let bytes = command_txn_bytes(cmds);
    assert(bytes =~= seq![0x00u8, 0x00u8, 0x10u8, b3]);
    let r1 = bytes.skip(1);
    assert(r1 =~= seq![0x00u8, 0x10u8, b3]);
    let m1 = step_cmd(m, 0x00);
    assert(m1.col == (m.col / 16) * 16);
    let r2 = r1.skip(1);
    assert(r2 =~= seq![0x10u8, b3]);
    let m2 = step_cmd(m1, 0x10);
    assert(m2.col == m1.col % 16) by {
        assert(m2.col == 0 * 16 + m1.col % 16);
    }
    assert(m1.col % 16 == 0) by {
        assert(m1.col == (m.col / 16) * 16);
        assert(((m.col / 16) * 16) % 16 == 0) by (nonlinear_arith);
    }
    let r3 = r2.skip(1);
    assert(r3 =~= seq![b3]);
    assert(0xB0 <= b3 < 0xC0);
    let m3 = step_cmd(m2, b3);
    assert(m3.page == p as int);
    lemma_apply_cmds_step(m, r1);
    lemma_apply_cmds_step(m1, r2);
    lemma_apply_cmds_step(m2, r3);
    assert(r3.skip(1) =~= Seq::<u8>::empty());
    lemma_apply_cmds_empty(m3);
    assert(apply_cmds(m, r1) == m3);
}

/// What RAM holds after a whole command-then-data transaction that places
/// the cursor at `(p, c)` and writes `data` there.
pub open spec fn write_region(ram: Seq<u8>, p: int, c: int, data: Seq<u8>) -> Seq<u8> {
    Seq::new(
        ram.len(),
        |i: int|
            if p * 128 + c <= i < p * 128 + c + data.len() {
                data[i - (p * 128 + c)]
            } else {
                ram[i]
            },
    )
}

/// The combined transaction — column address, page address, then a data
/// burst — writes `data` at `(p, c)` and leaves the cursor after it.
proof fn lemma_apply_page_write(m: DevModel, c: u8, p: u8, data: Seq<u8>)
    requires
        dev_wf(m),
        m.mode is Page,
        !m.pending,
        c < 128,
        p < 16,
        c + data.len() <= 128,
    ensures
        ({
            let m2 = apply_write(
                m,
                command_data_txn_bytes(
                    seq![Command::SetColumnAddress(c), Command::SetPageAddress(p)],
                    data,
                ),
            );
            &&& dev_wf(m2)
            &&& m2 == (DevModel {
                ram: write_region(m.ram, p as int, c as int, data),
                page: p as int,
                col: c + data.len(),
                mode: AddressMode::Page,
                pending: false,
            })
        }),
{
    let cmds = seq![Command::SetColumnAddress(c), Command::SetPageAddress(p)];
    let e0: u8 = (c as int % 16) as u8;
    let e1: u8 = (16 + c as int / 16) as u8;
    let e2: u8 = (0xB0 + p) as u8;
    lemma_encode_two(cmds[0], cmds[1]);
    assert(cmds[0].spec_encode() =~= seq![e0, e1]);
    assert(cmds[1].spec_encode() =~= seq![e2]);
    let enc = encode_all(cmds);
    assert(enc =~= seq![e0, e1, e2]);
    assert(interspersed(enc, CONTROL_COMMAND_MORE) =~= seq![
        e0,
        CONTROL_COMMAND_MORE,
        e1,
        CONTROL_COMMAND_MORE,
        e2,
    ]) by {
        assert(enc.skip(1) =~= seq![e1, e2]);
        assert(enc.skip(1).skip(1) =~= seq![e2]);
        assert(interspersed(seq![e2], CONTROL_COMMAND_MORE) =~= seq![e2]);
        assert(interspersed(seq![e1, e2], CONTROL_COMMAND_MORE) =~= seq![
            e1,
            CONTROL_COMMAND_MORE,
            e2,
        ]);
    }
    let bytes = command_data_txn_bytes(cmds, data);
    assert(bytes =~= seq![CONTROL_COMMAND_MORE] + (seq![e0, CONTROL_COMMAND_MORE] + (seq![
        e1,
        CONTROL_COMMAND_MORE,
    ] + (seq![e2, CONTROL_DATA] + data))));
    assert(bytes[0] == CONTROL_COMMAND_MORE);
    assert(bytes.skip(1) =~= seq![e0, CONTROL_COMMAND_MORE] + (seq![e1, CONTROL_COMMAND_MORE]
        + (seq![e2, CONTROL_DATA] + data)));
    let m1 = step_cmd(m, e0);
    lemma_inter_step(m, e0, seq![e1, CONTROL_COMMAND_MORE] + (seq![e2, CONTROL_DATA] + data));
    let m2 = step_cmd(m1, e1);
    lemma_inter_step(m1, e1, seq![e2, CONTROL_DATA] + data);
    let m3 = step_cmd(m2, e2);
    lemma_inter_data(m2, e2, data);
    assert(m1.col == (m.col / 16) * 16 + c as int % 16);
    assert(e1 < 0x18 && 0x10 <= e1) by {
        assert(c as int / 16 < 8);
    }
    assert(m2.col == (e1 - 0x10) * 16 + m1.col % 16);
    assert(m2.col == c as int) by {
        assert((e1 - 0x10) as int == c as int / 16);
        assert(m1.col % 16 == c as int % 16) by {
            assert(((m.col / 16) * 16 + c as int % 16) % 16 == c as int % 16) by (nonlinear_arith)
                requires
                    0 <= m.col,
                    0 <= c as int % 16 < 16,
            ;
        }
        assert((c as int / 16) * 16 + c as int % 16 == c as int);
    }
    assert(0xB0 <= e2 < 0xC0);
    assert(m3.page == p as int);
    assert(m3.col == c as int);
    assert(m3.mode is Page);
    assert(!m3.pending);
    lemma_apply_data_run(m3, data);
    let m4 = apply_data(m3, data);
    assert(m4.ram =~= write_region(m.ram, p as int, c as int, data));
    assert(apply_write(m, bytes) == (DevModel {
        ram: write_region(m.ram, p as int, c as int, data),
        page: p as int,
        col: c + data.len(),
        mode: AddressMode::Page,
        pending: false,
    }));
}

/// Running one more transaction after a sequence.
proof fn lemma_dev_runs_push(m: DevModel, s: Seq<Txn>, t: Txn)
    ensures
        dev_runs(m, s.push(t)) == dev_after_txn(dev_runs(m, s), t),
{
    assert(s.push(t) =~= s + seq![t]);
    lemma_dev_runs_concat(m, s, seq![t]);
    assert(seq![t].skip(1) =~= Seq::<Txn>::empty());
    assert(dev_runs(dev_after_txn(dev_runs(m, s), t), Seq::<Txn>::empty()) == dev_after_txn(
        dev_runs(m, s),
        t,
    ));
    assert(dev_runs(dev_runs(m, s), seq![t]) == dev_after_txn(dev_runs(m, s), t));
}

/// RAM after the first `k` page rows of `frame` have been written over
/// `ram0`, each page row landing in the first 64 columns of its page.
pub open spec fn frames_written(ram0: Seq<u8>, frame: Seq<u8>, k: int) -> Seq<u8> {
    Seq::new(
        ram0.len(),
        |i: int|
            if i / 128 < k && i % 128 < 64 {
                frame[(i / 128) * 64 + i % 128]
            } else {
                ram0[i]
            },
    )
}

/// After the first `k` page-write transactions of a page-major frame
/// write, the first `k` page rows of RAM hold the frame and nothing else
/// moved.
proof fn lemma_write_pages(m0: DevModel, addr: u8, frame: Seq<u8>, k: int)
    requires
        dev_wf(m0),
        m0.mode is Page,
        !m0.pending,
        frame.len() == crate::FRAME_BYTES,
        0 <= k <= 16,
    ensures
        ({
            let pages = Seq::new(
                16,
                |p: int| crate::session::page_write_txn(addr, Destination::Frame1, frame, p),
            );
            let mk = dev_runs(m0, pages.take(k));
            &&& dev_wf(mk)
            &&& mk.mode is Page
            &&& !mk.pending
            &&& mk.ram == frames_written(m0.ram, frame, k)
        }),
    decreases k,
{
    let pages = Seq::new(
        16,
        |p: int| crate::session::page_write_txn(addr, Destination::Frame1, frame, p),
    );
    if k == 0 {
        assert(pages.take(0) =~= Seq::<Txn>::empty());
        assert(dev_runs(m0, pages.take(0)) == m0);
        assert(m0.ram =~= frames_written(m0.ram, frame, 0));
    } else {
        lemma_write_pages(m0, addr, frame, k - 1);
        let mk1 = dev_runs(m0, pages.take(k - 1));
        assert(pages.take(k) =~= pages.take(k - 1).push(pages[k - 1]));
        lemma_dev_runs_push(m0, pages.take(k - 1), pages[k - 1]);
        let p = k - 1;
        let data = frame.subrange(p * 64, p * 64 + 64);
        assert(Destination::Frame1.spec_offset() == 0);
        assert(pages[p] == (Txn::Write {
            addr,
            bytes: command_data_txn_bytes(
                seq![Command::SetColumnAddress(0), Command::SetPageAddress(p as u8)],
                data,
            ),
        }));
        lemma_apply_page_write(mk1, 0, p as u8, data);
        let mk = dev_runs(m0, pages.take(k));
        assert(mk.ram == write_region(mk1.ram, p, 0, data));
        assert(mk.ram =~= frames_written(m0.ram, frame, k)) by {
            assert forall|i: int| 0 <= i < SIM_RAM_BYTES implies write_region(mk1.ram, p, 0, data)[i]
                == frames_written(m0.ram, frame, k)[i] by {
                assert(i == 128 * (i / 128) + i % 128);
                assert(0 <= i % 128 < 128);
                if p * 128 <= i < p * 128 + 64 {
                    assert(i / 128 == p && i % 128 == i - p * 128) by (nonlinear_arith)
                        requires
                            p * 128 <= i < p * 128 + 64,
                            0 <= p < 16,
                    ;
                    assert(write_region(mk1.ram, p, 0, data)[i] == data[i - p * 128]);
                    assert(data[i - p * 128] == frame[p * 64 + (i - p * 128)]);
                } else {
                    assert(!(i / 128 == p && i % 128 < 64)) by (nonlinear_arith)
                        requires
                            0 <= i,
                            !(p * 128 <= i < p * 128 + 64),
                            i == 128 * (i / 128) + i % 128,
                            0 <= i % 128 < 128,
                    ;
                    assert(write_region(mk1.ram, p, 0, data)[i] == mk1.ram[i]);
                }
            }
        }
    }
}

/// One unfolding of the faithful-record predicate.
proof fn lemma_dev_accepts_step(m: DevModel, ts: Seq<Txn>)
    requires
        ts.len() >= 1,
        dev_accepts(m, ts),
    ensures
        (match ts[0] {
            Txn::Write { addr, bytes } => true,
            Txn::WriteRead { addr, sent, received } => received == dev_response(
                m,
                sent,
                received.len(),
            ),
        }),
        dev_accepts(dev_after_txn(m, ts[0]), ts.skip(1)),
{
}

/// Peeling the read of pages `k` and onward: if the device's first 64
/// columns of each page hold the frame, a faithful record of the
/// remaining position-and-read pairs pins the output to the frame.
proof fn lemma_read_pages(mw: DevModel, addr: u8, frame: Seq<u8>, out: Seq<u8>, k: int)
    requires
        dev_wf(mw),
        !mw.pending,
        frame.len() == crate::FRAME_BYTES,
        out.len() == crate::FRAME_BYTES,
        forall|i: int|
            0 <= i < SIM_RAM_BYTES && i % 128 < 64 ==> #[trigger] mw.ram[i] == frame[(i / 128) * 64
                + i % 128],
        0 <= k <= 16,
        dev_accepts(mw, crate::session::read_frame_txns(addr, out).subrange(1 + 2 * k, 33)),
    ensures
        forall|idx: int| 64 * k <= idx < 1024 ==> out[idx] == frame[idx],
    decreases 16 - k,
{
    if k < 16 {
        let rtxns = crate::session::read_frame_txns(addr, out);
        let tail = rtxns.subrange(1 + 2 * k, 33);
        assert(tail[0] == crate::session::read_frame_txn_at(addr, out, 1 + 2 * k));
        assert((1 + 2 * k - 1) % 2 == 0 && (1 + 2 * k - 1) / 2 == k);
        assert(tail[0] == crate::session::page_read_cmd_txn(addr, k));
        lemma_dev_accepts_step(mw, tail);
        lemma_apply_position_cmd(mw, k as u8);
        let m1 = dev_after_txn(mw, tail[0]);
        assert(m1 == (DevModel { col: 0, page: k, pending: false, ..mw }));
        assert(tail.skip(1) =~= rtxns.subrange(2 + 2 * k, 33));
        let tail1 = rtxns.subrange(2 + 2 * k, 33);
        assert(tail1[0] == crate::session::read_frame_txn_at(addr, out, 2 + 2 * k));
        assert((2 + 2 * k - 1) % 2 == 1 && (2 + 2 * k - 1) / 2 == k);
        assert(tail1[0] == crate::session::page_read_data_txn(addr, out, k));
        lemma_dev_accepts_step(m1, tail1);
        let received = out.subrange(k * 64, k * 64 + 64);
        assert(received.len() == 64);
        assert(received == dev_response(m1, seq![CONTROL_DATA], 64));
        assert(received == read_bytes(m1, 64));
        assert forall|idx: int| 64 * k <= idx < 64 * k + 64 implies out[idx] == frame[idx] by {
            let j = idx - 64 * k;
            assert(received[j] == out[idx]);
            assert(read_bytes(m1, 64)[j] == m1.ram[k * 128 + j]);
            let i = k * 128 + j;
            assert(i / 128 == k && i % 128 == j) by (nonlinear_arith)
                requires
                    0 <= k < 16,
                    0 <= j < 64,
                    i == k * 128 + j,
            ;
            assert(mw.ram[i] == frame[(i / 128) * 64 + i % 128]);
            assert(mw.ram[i] == frame[idx]);
        }
        let m2 = dev_after_txn(m1, tail1[0]);
        assert(m2 == after_read(m1, 64));
        assert(tail1.skip(1) =~= rtxns.subrange(1 + 2 * (k + 1), 33));
        lemma_read_pages(m2, addr, frame, out, k + 1);
    }
}

/// The round-trip law: write a full frame page by page, read it back page
/// by page, and the bytes come back identical.
///
/// `m` is any well-formed controller state between transactions. The last
/// premise says the read transactions are a faithful record of this
/// device: each read returned exactly what the model held at that point —
/// which is what the simulated bus produces, and what the hardware's
/// documented read behaviour promises.
pub proof fn lemma_frame_round_trip(addr: u8, frame: Seq<u8>, m: DevModel, out: Seq<u8>)
    requires
        dev_wf(m),
        !m.pending,
        frame.len() == crate::FRAME_BYTES,
        out.len() == crate::FRAME_BYTES,
        dev_accepts(
            dev_runs(m, crate::session::frame_by_page_txns(addr, Destination::Frame1, frame)),
            crate::session::read_frame_txns(addr, out),
        ),
    ensures
        out == frame,
{
    let wtxns = crate::session::frame_by_page_txns(addr, Destination::Frame1, frame);
    let pages = Seq::new(
        16,
        |p: int| crate::session::page_write_txn(addr, Destination::Frame1, frame, p),
    );
    let mt = crate::session::mode_txn(addr, AddressMode::Page);
    assert(wtxns =~= seq![mt] + pages);
    lemma_dev_runs_concat(m, seq![mt], pages);
    lemma_apply_mode_page(m);
    let m1 = DevModel { mode: AddressMode::Page, pending: false, ..m };
    assert(seq![mt].skip(1) =~= Seq::<Txn>::empty());
    assert(dev_after_txn(m, mt) == m1);
    assert(dev_runs(dev_after_txn(m, mt), Seq::<Txn>::empty()) == m1);
    assert(dev_runs(m, seq![mt]) == m1);
    lemma_write_pages(m1, addr, frame, 16);
    assert(pages.take(16) =~= pages);
    let mw = dev_runs(m1, pages);
    assert(dev_runs(m, wtxns) == mw);
    assert(mw.ram == frames_written(m1.ram, frame, 16));
    assert forall|i: int| 0 <= i < SIM_RAM_BYTES && i % 128 < 64 implies #[trigger] mw.ram[i]
        == frame[(i / 128) * 64 + i % 128] by {
        assert(0 <= i / 128 < 16) by (nonlinear_arith)
            requires
                0 <= i < 2048,
        ;
        assert(frames_written(m1.ram, frame, 16)[i] == frame[(i / 128) * 64 + i % 128]);
    }
    let rtxns = crate::session::read_frame_txns(addr, out);
    assert(rtxns[0] == crate::session::read_frame_txn_at(addr, out, 0));
    assert(rtxns[0] == mt);
    lemma_dev_accepts_step(mw, rtxns);
    lemma_apply_mode_page(mw);
    let mr0 = dev_after_txn(mw, mt);
    assert(mr0 == (DevModel { mode: AddressMode::Page, pending: false, ..mw }));
    assert(rtxns.skip(1) =~= rtxns.subrange(1, 33));
    lemma_read_pages(mr0, addr, frame, out, 0);
    assert(out =~= frame);
}

} // verus!
