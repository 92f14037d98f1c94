//! The dirty-region tracker: a local bitmap beside a dirty mask, and the
//! coalescing scan that turns the mask into the minimal set of byte runs to
//! retransmit.
//!
//! The scan works page by page — a run never crosses a page boundary — and
//! tolerates short gaps of clean bytes inside a run: resending up to 7
//! already-correct bytes is cheaper than the addressing overhead of closing
//! and reopening a run, while 8 consecutive clean bytes end the run.

use vstd::prelude::*;

use crate::bus::BusError;
use crate::bus::WriteIter;
use crate::codec::AddressMode;
use crate::codec::Command;
use crate::framing::all_valid;
use crate::framing::command_data_txn_bytes;
use crate::framing::Txn;
use crate::session::mode_txn;
use crate::session::Destination;
use crate::session::Display;
use crate::session::init_txn;
use crate::FRAME_BYTES;
use crate::PAGE;

verus! {

/// The longest gap of clean bytes folded into a run; one more ends it.
pub const MAX_RUN_GAP: u8 = 7;

/// A contiguous span of bytes within one page selected for transmission.
#[derive(Clone, Copy, PartialEq, Eq, Debug, Structural)]
pub struct Run {
    /// The page the span lies in.
    pub page: u8,
    /// The first column of the span.
    pub col: u8,
    /// The number of bytes in the span.
    pub len: u8,
}

impl Run {
    /// A run fits in its page and holds at least one byte.
    pub open spec fn wf(self) -> bool {
        &&& self.page < 16
        &&& self.col < 64
        &&& 1 <= self.len
        &&& self.col + self.len <= 64
    }
}

/// The scanner's position within a page: between runs, or inside one whose
/// first and last dirty columns are known so far.
pub enum ScanState {
    Seeking,
    InRun { first: int, last: int },
}

/// One step of the coalescing scan at column `k` of a page.
///
/// A dirty byte starts or extends a run. A clean byte is tolerated until it
/// is the eighth in a row since the last dirty byte, which closes the run
/// at that dirty byte.
pub open spec fn scan_step(st: ScanState, k: int, dirty: bool) -> (ScanState, Option<(int, int)>) {
    match st {
        ScanState::Seeking => {
            if dirty {
                (ScanState::InRun { first: k, last: k }, None::<(int, int)>)
            } else {
                (st, None)
            }
        },
        ScanState::InRun { first, last } => {
            if dirty {
                (ScanState::InRun { first, last: k }, None)
            } else if k - last == MAX_RUN_GAP + 1 {
                (ScanState::Seeking, Some((first, last)))
            } else {
                (st, None)
            }
        },
    }
}

/// The scanner state and the spans emitted after examining the first `n`
/// columns of a page row of the mask.
pub open spec fn scan_upto(row: Seq<u8>, n: int) -> (ScanState, Seq<(int, int)>)
    decreases n,
{
    if n <= 0 {
        (ScanState::Seeking, Seq::empty())
    } else {
        let r = scan_upto(row, n - 1);
        let s = scan_step(r.0, n - 1, row[n - 1] != 0);
        (
            s.0,
            match s.1 {
                Some(sp) => r.1.push(sp),
                None => r.1,
            },
        )
    }
}

/// All spans of one page row of the mask: the scan over its 64 columns,
/// plus the still-open run if the page ends inside one.
pub open spec fn page_spans(row: Seq<u8>) -> Seq<(int, int)> {
    let r = scan_upto(row, 64);
    match r.0 {
        ScanState::InRun { first, last } => r.1.push((first, last)),
        ScanState::Seeking => r.1,
    }
}

/// A span of page `p` as a transmission run.
pub open spec fn span_run(p: int, sp: (int, int)) -> Run {
    Run { page: p as u8, col: sp.0 as u8, len: (sp.1 - sp.0 + 1) as u8 }
}

/// The runs of the first `p` pages of the mask, in transmission order.
pub open spec fn mask_runs_upto(mask: Seq<u8>, p: int) -> Seq<Run>
    decreases p,
{
    if p <= 0 {
        Seq::empty()
    } else {
        mask_runs_upto(mask, p - 1) + page_spans(
            mask.subrange((p - 1) * 64, p * 64),
        ).map_values(|sp: (int, int)| span_run(p - 1, sp))
    }
}

/// All runs the flush of a mask will transmit, in order.
pub open spec fn mask_runs(mask: Seq<u8>) -> Seq<Run> {
    mask_runs_upto(mask, 16)
}

/// Compute the transmission runs of a dirty mask.
pub fn compute_runs(mask: &Vec<u8>) -> (runs: Vec<Run>)
    requires
        mask@.len() == FRAME_BYTES,
    ensures
        runs@ == mask_runs(mask@),
        forall|i: int| 0 <= i < runs@.len() ==> (#[trigger] runs@[i]).wf(),
{
    let mut runs: Vec<Run> = Vec::new();
    let mut page: u8 = 0;
    while page < PAGE
        invariant
            page <= PAGE,
            mask@.len() == FRAME_BYTES,
            runs@ == mask_runs_upto(mask@, page as int),
            forall|i: int| 0 <= i < runs@.len() ==> (#[trigger] runs@[i]).wf(),
        decreases PAGE - page,
    {
        let ghost row = mask@.subrange(page as int * 64, (page as int + 1) * 64);
        let ghost prior = runs@;
        let base: usize = (page as usize) * 64;
        let mut cur: Option<(u8, u8)> = None;
        let mut k: u8 = 0;
        while k < 64
            invariant
                k <= 64,
                page < PAGE,
                base == (page as int) * 64,
                mask@.len() == FRAME_BYTES,
                row == mask@.subrange(page as int * 64, (page as int + 1) * 64),
                cur is None <==> scan_upto(row, k as int).0 is Seeking,
                cur matches Some(fl) ==> {
                    &&& scan_upto(row, k as int).0 == (ScanState::InRun {
                        first: fl.0 as int,
                        last: fl.1 as int,
                    })
                    &&& fl.0 <= fl.1 < k
                    &&& k - fl.1 <= MAX_RUN_GAP + 1
                },
                runs@ == prior + scan_upto(row, k as int).1.map_values(
                    |sp: (int, int)| span_run(page as int, sp),
                ),
                forall|i: int| 0 <= i < runs@.len() ==> (#[trigger] runs@[i]).wf(),
            decreases 64 - k,
        {
            let dirty = mask[base + (k as usize)] != 0;
            proof {
                assert(row[k as int] == mask@[base as int + k as int]);
            }
            match cur {
                None => {
                    if dirty {
                        cur = Some((k, k));
                    }
                },
                Some((first, last)) => {
                    if dirty {
                        cur = Some((first, k));
                    } else if k - last == MAX_RUN_GAP + 1 {
                        let r = Run { page, col: first, len: last - first + 1 };
                        runs.push(r);
                        proof {
                            assert(r == span_run(page as int, (first as int, last as int)));
                            assert(scan_upto(row, k as int + 1).1 == scan_upto(
                                row,
                                k as int,
                            ).1.push((first as int, last as int)));
                            assert(scan_upto(row, k as int + 1).1.map_values(
                                |sp: (int, int)| span_run(page as int, sp),
                            ) =~= scan_upto(row, k as int).1.map_values(
                                |sp: (int, int)| span_run(page as int, sp),
                            ).push(r));
                        }
                        cur = None;
                    }
                },
            }
            k = k + 1;
        }
        match cur {
            None => {
                proof {
                    assert(page_spans(row) == scan_upto(row, 64).1);
                }
            },
            Some((first, last)) => {
                let r = Run { page, col: first, len: last - first + 1 };
                runs.push(r);
                proof {
                    assert(r == span_run(page as int, (first as int, last as int)));
                    assert(page_spans(row) == scan_upto(row, 64).1.push(
                        (first as int, last as int),
                    ));
                    assert(page_spans(row).map_values(|sp: (int, int)| span_run(page as int, sp))
                        =~= scan_upto(row, 64).1.map_values(
                        |sp: (int, int)| span_run(page as int, sp),
                    ).push(r));
                }
            },
        }
        proof {
            assert(runs@ =~= mask_runs_upto(mask@, page as int + 1));
        }
        page = page + 1;
    }
    runs
}

/// An all-zero dirty mask: nothing left to transmit.
pub open spec fn clean_mask() -> Seq<u8> {
    Seq::new(FRAME_BYTES as nat, |i: int| 0u8)
}

/// The transaction that transmits one run: position the cursor at the
/// run's start, then the run's bytes from the bitmap.
pub open spec fn run_txn(addr: u8, dest: Destination, bitmap: Seq<u8>, r: Run) -> Txn {
    Txn::Write {
        addr,
        bytes: command_data_txn_bytes(
            seq![
                Command::SetColumnAddress((dest.spec_offset() + r.col) as u8),
                Command::SetPageAddress(r.page),
            ],
            bitmap.subrange(
                r.page * 64 + r.col,
                r.page * 64 + r.col + r.len,
            ),
        ),
    }
}

/// All transactions of a flush: nothing at all for a clean mask, else one
/// mode selection and one transaction per run.
pub open spec fn flush_txns(addr: u8, dest: Destination, bitmap: Seq<u8>, mask: Seq<u8>) -> Seq<
    Txn,
> {
    let runs = mask_runs(mask);
    if runs.len() == 0 {
        Seq::empty()
    } else {
        seq![mode_txn(addr, AddressMode::Page)] + runs.map_values(
            |r: Run| run_txn(addr, dest, bitmap, r),
        )
    }
}

/// The scan of an all-clean page row never leaves its starting state and
/// emits nothing.
proof fn lemma_scan_clean(row: Seq<u8>, n: int)
    requires
        forall|i: int| 0 <= i < row.len() ==> row[i] == 0u8,
        0 <= n <= row.len(),
    ensures
        scan_upto(row, n).0 is Seeking,
        scan_upto(row, n).1 == Seq::<(int, int)>::empty(),
    decreases n,
{
    if n > 0 {
        lemma_scan_clean(row, n - 1);
    }
}

/// A clean mask yields no runs.
proof fn lemma_clean_mask_runs_upto(mask: Seq<u8>, p: int)
    requires
        mask.len() == FRAME_BYTES,
        forall|i: int| 0 <= i < mask.len() ==> mask[i] == 0u8,
        0 <= p <= 16,
    ensures
        mask_runs_upto(mask, p) == Seq::<Run>::empty(),
    decreases p,
{
    if p > 0 {
        lemma_clean_mask_runs_upto(mask, p - 1);
        let row = mask.subrange((p - 1) * 64, p * 64);
        lemma_scan_clean(row, 64);
        assert(page_spans(row).map_values(|sp: (int, int)| span_run(p - 1, sp))
            =~= Seq::<Run>::empty());
        assert(mask_runs_upto(mask, p) =~= Seq::<Run>::empty());
    }
}

/// Flushing a tracker whose mask is clean emits no bus transactions at
/// all. Since a successful flush leaves the mask clean, a second flush
/// with no draw in between writes nothing to the bus.
pub proof fn lemma_flush_clean_mask_silent(addr: u8, dest: Destination, bitmap: Seq<u8>, mask: Seq<
    u8,
>)
    requires
        mask.len() == FRAME_BYTES,
        forall|i: int| 0 <= i < mask.len() ==> mask[i] == 0u8,
    ensures
        flush_txns(addr, dest, bitmap, mask) == Seq::<Txn>::empty(),
{
    lemma_clean_mask_runs_upto(mask, 16);
}

/// The mask a successful flush leaves behind is clean, so the flush after
/// it is silent.
pub proof fn lemma_second_flush_silent(addr: u8, dest: Destination, bitmap: Seq<u8>)
    ensures
        flush_txns(addr, dest, bitmap, clean_mask()) == Seq::<Txn>::empty(),
{
    lemma_flush_clean_mask_silent(addr, dest, bitmap, clean_mask());
}

/// Whether column `j` lies inside one of the spans.
pub open spec fn span_covers(spans: Seq<(int, int)>, j: int) -> bool {
    exists|q: int| 0 <= q < spans.len() && (#[trigger] spans[q]).0 <= j <= spans[q].1
}

/// Invariants of the scan after `n` columns: every span sits inside the
/// examined prefix, an open run covers its columns, its recent gap is
/// short and nothing dirty follows its last column, and every dirty
/// column seen so far is covered by a span or by the open run.
proof fn lemma_scan_props(row: Seq<u8>, n: int)
    requires
        row.len() == 64,
        0 <= n <= 64,
    ensures
        ({
            let st = scan_upto(row, n).0;
            let spans = scan_upto(row, n).1;
            &&& forall|q: int|
                0 <= q < spans.len() ==> 0 <= (#[trigger] spans[q]).0 <= spans[q].1 < n
            &&& (st matches ScanState::InRun { first, last } ==> {
                &&& 0 <= first <= last < n
                &&& n - last <= MAX_RUN_GAP + 1
                &&& forall|j: int| last < j < n ==> row[j] == 0
            })
            &&& forall|j: int|
                0 <= j < n && row[j] != 0 ==> span_covers(spans, j) || (st matches
                ScanState::InRun { first, last } &&
                first <= j <= last)
        }),
    decreases n,
{
    if n > 0 {
        lemma_scan_props(row, n - 1);
        let st0 = scan_upto(row, n - 1).0;
        let spans0 = scan_upto(row, n - 1).1;
        let st = scan_upto(row, n).0;
        let spans = scan_upto(row, n).1;
        match st0 {
            ScanState::Seeking => {},
            ScanState::InRun { first, last } => {
                if row[n - 1] == 0 && (n - 1) - last == MAX_RUN_GAP + 1 {
                    // The run closes: its span now stands among the
                    // emitted ones.
                    assert(spans == spans0.push((first, last)));
                    assert(spans[spans0.len() as int] == (first, last));
                    assert forall|j: int| 0 <= j < n && row[j] != 0 implies span_covers(
                        spans,
                        j,
                    ) by {
                        if span_covers(spans0, j) {
                            let q = choose|q: int|
                                0 <= q < spans0.len() && (#[trigger] spans0[q]).0 <= j
                                    <= spans0[q].1;
                            assert(spans[q].0 <= j <= spans[q].1);
                        } else {
                            assert(first <= j <= last);
                            assert(spans[spans0.len() as int].0 <= j <= spans[spans0.len()
                                as int].1);
                        }
                    }
                } else {
                    assert forall|q: int| 0 <= q < spans.len() implies 0 <= (
                    #[trigger] spans[q]).0 <= spans[q].1 < n by {
                        assert(spans[q] == spans0[q]);
                    }
                }
            },
        }
    }
}

/// Every dirty column of a page row is covered by one of its spans, and
/// every span sits inside the row.
proof fn lemma_page_spans_cover(row: Seq<u8>)
    requires
        row.len() == 64,
    ensures
        forall|j: int| 0 <= j < 64 && row[j] != 0 ==> span_covers(page_spans(row), j),
        forall|q: int|
            0 <= q < page_spans(row).len() ==> 0 <= (#[trigger] page_spans(row)[q]).0
                <= page_spans(row)[q].1 < 64,
{
    lemma_scan_props(row, 64);
    let st = scan_upto(row, 64).0;
    let spans0 = scan_upto(row, 64).1;
    match st {
        ScanState::Seeking => {},
        ScanState::InRun { first, last } => {
            let spans = spans0.push((first, last));
            assert(page_spans(row) == spans);
            assert(spans[spans0.len() as int] == (first, last));
            assert forall|j: int| 0 <= j < 64 && row[j] != 0 implies span_covers(spans, j) by {
                if span_covers(spans0, j) {
                    let q = choose|q: int|
                        0 <= q < spans0.len() && (#[trigger] spans0[q]).0 <= j <= spans0[q].1;
                    assert(spans[q].0 <= j <= spans[q].1);
                } else {
                    assert(spans[spans0.len() as int].0 <= j <= spans[spans0.len() as int].1);
                }
            }
        },
    }
}

/// Whether the flat mask index `idx` lies inside the run.
pub open spec fn run_covers(r: Run, idx: int) -> bool {
    r.page * 64 + r.col <= idx < r.page * 64 + r.col + r.len
}

/// The runs of pages below `pp` keep their places when later pages are
/// appended.
proof fn lemma_mask_runs_upto_contains(mask: Seq<u8>, pp: int, r: Run)
    requires
        mask.len() == FRAME_BYTES,
        0 <= pp <= 16,
        mask_runs_upto(mask, pp).contains(r),
    ensures
        mask_runs(mask).contains(r),
    decreases 16 - pp,
{
    if pp < 16 {
        let a = mask_runs_upto(mask, pp);
        let b = page_spans(mask.subrange(pp * 64, (pp + 1) * 64)).map_values(
            |sp: (int, int)| span_run(pp, sp),
        );
        let q = choose|q: int| 0 <= q < a.len() && a[q] == r;
        assert(mask_runs_upto(mask, pp + 1) == a + b);
        assert((a + b)[q] == r);
        lemma_mask_runs_upto_contains(mask, pp + 1, r);
    }
}

/// Every dirty byte of the mask lies inside one of the runs the flush
/// transmits: gaps may be resent redundantly, but no dirty byte is ever
/// left out.
pub proof fn lemma_runs_cover_dirty(mask: Seq<u8>, idx: int)
    requires
        mask.len() == FRAME_BYTES,
        0 <= idx < FRAME_BYTES,
        mask[idx] != 0,
    ensures
        exists|q: int|
            0 <= q < mask_runs(mask).len() && run_covers(#[trigger] mask_runs(mask)[q], idx),
{
    let p = idx / 64;
    let j = idx % 64;
    assert(0 <= p < 16 && 0 <= j < 64 && idx == p * 64 + j) by (nonlinear_arith)
        requires
            0 <= idx < 1024,
            p == idx / 64,
            j == idx % 64,
    ;
    let row = mask.subrange(p * 64, (p + 1) * 64);
    assert(row[j] == mask[idx]);
    lemma_page_spans_cover(row);
    let sq = choose|sq: int|
        0 <= sq < page_spans(row).len() && (#[trigger] page_spans(row)[sq]).0 <= j <= page_spans(
            row,
        )[sq].1;
    let sp = page_spans(row)[sq];
    let r = span_run(p, sp);
    assert(run_covers(r, idx));
    let seg = page_spans(row).map_values(|s: (int, int)| span_run(p, s));
    assert(seg[sq] == r);
    assert(mask_runs_upto(mask, p + 1).contains(r)) by {
        let a = mask_runs_upto(mask, p);
        assert(mask_runs_upto(mask, p + 1) == a + seg);
        assert((a + seg)[a.len() + sq] == r);
    }
    lemma_mask_runs_upto_contains(mask, p + 1, r);
    let q = choose|q: int| 0 <= q < mask_runs(mask).len() && mask_runs(mask)[q] == r;
    assert(run_covers(mask_runs(mask)[q], idx));
}

/// One pixel write: panel coordinates and the new pixel value.
#[derive(Clone, Copy, PartialEq, Eq, Debug, Structural)]
pub struct Pixel {
    pub x: i32,
    pub y: i32,
    pub on: bool,
}

/// Whether a coordinate lies on the 64 by 128 panel.
pub open spec fn pixel_in_bounds(x: int, y: int) -> bool {
    0 <= x < 64 && 0 <= y < 128
}

/// The byte holding a pixel: page-major, one page per 8 rows.
pub open spec fn pixel_index(x: int, y: int) -> int {
    (y / 8) * 64 + x
}

/// The bit of a pixel within its byte.
pub open spec fn pixel_bit(y: int) -> u8 {
    1u8 << ((y % 8) as u8)
}

/// The bitmap after one pixel write; coordinates off the panel change
/// nothing.
pub open spec fn draw_pixel_bitmap(bitmap: Seq<u8>, x: int, y: int, on: bool) -> Seq<u8> {
    if pixel_in_bounds(x, y) {
        let i = pixel_index(x, y);
        bitmap.update(
            i,
            if on {
                bitmap[i] | pixel_bit(y)
            } else {
                bitmap[i] & !pixel_bit(y)
            },
        )
    } else {
        bitmap
    }
}

/// The mask after one pixel write: the pixel's dirty bit is set
/// unconditionally, whether or not the value changed.
pub open spec fn draw_pixel_mask(mask: Seq<u8>, x: int, y: int) -> Seq<u8> {
    if pixel_in_bounds(x, y) {
        let i = pixel_index(x, y);
        mask.update(i, mask[i] | pixel_bit(y))
    } else {
        mask
    }
}

/// The bitmap and mask after a sequence of pixel writes, in order.
pub open spec fn draw_all(bitmap: Seq<u8>, mask: Seq<u8>, ps: Seq<Pixel>) -> (Seq<u8>, Seq<u8>)
    decreases ps.len(),
{
    if ps.len() == 0 {
        (bitmap, mask)
    } else {
        let h = ps[0];
        draw_all(
            draw_pixel_bitmap(bitmap, h.x as int, h.y as int, h.on),
            draw_pixel_mask(mask, h.x as int, h.y as int),
            ps.skip(1),
        )
    }
}

/// The mask covers every pixel on which the local bitmap and the panel's
/// copy differ: wherever a dirty bit is clear, the two bytes agree on that
/// bit. Over-marking is allowed — it only costs redundant bytes — but
/// under-marking never happens.
pub open spec fn mask_covers_difference(bitmap: Seq<u8>, shown: Seq<u8>, mask: Seq<u8>) -> bool {
    forall|i: int|
        0 <= i < FRAME_BYTES ==> ((#[trigger] bitmap[i] ^ shown[i]) & !mask[i]) == 0
}

/// Drawing keeps the mask a superset of the differing pixels, whatever
/// the panel shows: a pixel write flips bits only under a dirty bit it
/// sets in the same step.
pub proof fn lemma_draw_preserves_cover(
    bitmap: Seq<u8>,
    shown: Seq<u8>,
    mask: Seq<u8>,
    x: int,
    y: int,
    on: bool,
)
    requires
        bitmap.len() == FRAME_BYTES,
        mask.len() == FRAME_BYTES,
        mask_covers_difference(bitmap, shown, mask),
    ensures
        mask_covers_difference(
            draw_pixel_bitmap(bitmap, x, y, on),
            shown,
            draw_pixel_mask(mask, x, y),
        ),
{
    if pixel_in_bounds(x, y) {
        let i0 = pixel_index(x, y);
        assert(0 <= i0 < FRAME_BYTES) by (nonlinear_arith)
            requires
                0 <= x < 64,
                0 <= y < 128,
                i0 == (y / 8) * 64 + x,
        ;
        let bit = pixel_bit(y);
        let b = bitmap[i0];
        let s = shown[i0];
        let m = mask[i0];
        assert(((b ^ s) & !m) == 0 ==> (((b | bit) ^ s) & !(m | bit)) == 0) by (bit_vector);
        assert(((b ^ s) & !m) == 0 ==> (((b & !bit) ^ s) & !(m | bit)) == 0) by (bit_vector);
        let b2 = draw_pixel_bitmap(bitmap, x, y, on);
        let m2 = draw_pixel_mask(mask, x, y);
        assert forall|i: int| 0 <= i < FRAME_BYTES implies ((#[trigger] b2[i] ^ shown[i])
            & !m2[i]) == 0 by {
            if i != i0 {
                assert(b2[i] == bitmap[i] && m2[i] == mask[i]);
            }
        }
    }
}

/// A display session behind a local bitmap and dirty mask: draws land in
/// memory, and a flush resynchronizes the panel with the fewest bus writes
/// the coalescing scan allows.
pub struct BufferedDisplay<T: WriteIter> {
    display: Display<T>,
    bitmap: Vec<u8>,
    bitmask: Vec<u8>,
}

impl<T: WriteIter> BufferedDisplay<T> {
    /// The underlying display session.
    pub closed spec fn spec_display(&self) -> Display<T> {
        self.display
    }

    /// The committed pixel bytes.
    pub closed spec fn spec_bitmap(&self) -> Seq<u8> {
        self.bitmap@
    }

    /// The dirty mask: a set bit means the panel's copy of that pixel may
    /// be stale.
    pub closed spec fn spec_mask(&self) -> Seq<u8> {
        self.bitmask@
    }

    /// The device address of the session.
    pub open spec fn spec_address(&self) -> u8 {
        self.spec_display().spec_address()
    }

    /// All transactions this session's bus has carried out.
    pub open spec fn transcript(&self) -> Seq<Txn> {
        self.spec_display().transcript()
    }

    /// Both buffers cover the whole frame.
    pub open spec fn wf(&self) -> bool {
        &&& self.spec_bitmap().len() == FRAME_BYTES
        &&& self.spec_mask().len() == FRAME_BYTES
    }

    /// Initialize the display and start from a blank bitmap with every
    /// byte marked dirty: the panel's power-on content is unknown, so the
    /// first flush retransmits everything.
    pub fn new(i2c_bus: T, address: u8) -> (r: Result<Self, (T, BusError)>)
        ensures
            r matches Ok(d) ==> {
                &&& d.wf()
                &&& d.spec_address() == address
                &&& d.transcript() == i2c_bus.transcript().push(init_txn(address))
                &&& d.spec_bitmap() == Seq::new(FRAME_BYTES as nat, |i: int| 0u8)
                &&& d.spec_mask() == Seq::new(FRAME_BYTES as nat, |i: int| 0xFFu8)
            },
            r matches Err((b, e)) ==> b.transcript() == i2c_bus.transcript(),
    {
        match Display::new(i2c_bus, address) {
            Ok(display) => {
                let mut bitmap: Vec<u8> = Vec::new();
                let mut bitmask: Vec<u8> = Vec::new();
                let mut i: usize = 0;
                while i < FRAME_BYTES
                    invariant
                        i <= FRAME_BYTES,
                        bitmap@.len() == i,
                        bitmask@.len() == i,
                        forall|q: int| 0 <= q < i ==> bitmap@[q] == 0u8,
                        forall|q: int| 0 <= q < i ==> bitmask@[q] == 0xFFu8,
                    decreases FRAME_BYTES - i,
                {
                    bitmap.push(0);
                    bitmask.push(0xFF);
                    i = i + 1;
                }
                proof {
                    assert(bitmap@ =~= Seq::new(FRAME_BYTES as nat, |i: int| 0u8));
                    assert(bitmask@ =~= Seq::new(FRAME_BYTES as nat, |i: int| 0xFFu8));
                }
                Ok(BufferedDisplay { display, bitmap, bitmask })
            },
            Err(p) => Err(p),
        }
    }

    /// Write one pixel into the local bitmap and mark it dirty.
    pub fn draw_pixel(&mut self, x: i32, y: i32, on: bool)
        requires
            old(self).wf(),
        ensures
            final(self).wf(),
            final(self).spec_display() == old(self).spec_display(),
            final(self).spec_bitmap() == draw_pixel_bitmap(
                old(self).spec_bitmap(),
                x as int,
                y as int,
                on,
            ),
            final(self).spec_mask() == draw_pixel_mask(old(self).spec_mask(), x as int, y as int),
    {
        if 0 <= x && x < 64 && 0 <= y && y < 128 {
            let xu = x as usize;
            let yu = y as usize;
            let idx: usize = (yu / 8) * 64 + xu;
            let shift: u8 = (yu % 8) as u8;
            let bit: u8 = 1u8 << shift;
            proof {
                assert(bit == pixel_bit(y as int));
                assert(idx == pixel_index(x as int, y as int));
            }
            let b = self.bitmap[idx];
            self.bitmap.set(idx, if on { b | bit } else { b & !bit });
            let m = self.bitmask[idx];
            self.bitmask.set(idx, m | bit);
        }
    }

    /// Write a batch of pixels, in order.
    pub fn draw_iter(&mut self, pixels: &Vec<Pixel>)
        requires
            old(self).wf(),
        ensures
            final(self).wf(),
            final(self).spec_display() == old(self).spec_display(),
            final(self).spec_bitmap() == draw_all(
                old(self).spec_bitmap(),
                old(self).spec_mask(),
                pixels@,
            ).0,
            final(self).spec_mask() == draw_all(
                old(self).spec_bitmap(),
                old(self).spec_mask(),
                pixels@,
            ).1,
    {
        let ghost target = draw_all(old(self).spec_bitmap(), old(self).spec_mask(), pixels@);
        proof {
            assert(pixels@.skip(0) =~= pixels@);
        }
        let mut i: usize = 0;
        while i < pixels.len()
            invariant
                i <= pixels@.len(),
                self.wf(),
                self.spec_display() == old(self).spec_display(),
                target == draw_all(old(self).spec_bitmap(), old(self).spec_mask(), pixels@),
                draw_all(self.spec_bitmap(), self.spec_mask(), pixels@.skip(i as int)) == target,
            decreases pixels@.len() - i,
        {
            let p = pixels[i];
            proof {
                assert(pixels@.skip(i as int)[0] == p);
                assert(pixels@.skip(i as int).skip(1) =~= pixels@.skip(i as int + 1));
            }
            self.draw_pixel(p.x, p.y, p.on);
            i = i + 1;
        }
        proof {
            assert(pixels@.skip(pixels@.len() as int) =~= Seq::<Pixel>::empty());
        }
    }

    /// Flush to the first frame.
    pub fn flush(&mut self) -> (r: Result<(), BusError>)
        requires
            old(self).wf(),
        ensures
            final(self).wf(),
            final(self).spec_address() == old(self).spec_address(),
            final(self).spec_bitmap() == old(self).spec_bitmap(),
            r is Ok ==> {
                &&& final(self).transcript() == old(self).transcript() + flush_txns(
                    old(self).spec_address(),
                    Destination::Frame1,
                    old(self).spec_bitmap(),
                    old(self).spec_mask(),
                )
                &&& final(self).spec_mask() == clean_mask()
            },
            mask_runs(old(self).spec_mask()).len() == 0 ==> r is Ok,
            r is Err ==> {
                &&& final(self).spec_mask() == old(self).spec_mask()
                &&& exists|n: int|
                    {
                        &&& 0 <= n <= flush_txns(
                            old(self).spec_address(),
                            Destination::Frame1,
                            old(self).spec_bitmap(),
                            old(self).spec_mask(),
                        ).len()
                        &&& final(self).transcript() == old(self).transcript() + flush_txns(
                            old(self).spec_address(),
                            Destination::Frame1,
                            old(self).spec_bitmap(),
                            old(self).spec_mask(),
                        ).take(n)
                    }
            },
    {
        self.flush_to(Destination::Frame1)
    }

    /// Flush the dirty bytes to the panel: one transaction per coalesced
    /// run, and none at all when nothing is dirty — a flush with no runs
    /// touches no bus and cannot fail. The mask is cleared only after
    /// every run was transmitted; any failure leaves it untouched so the
    /// next flush retries the full content.
    pub fn flush_to(&mut self, dest: Destination) -> (r: Result<(), BusError>)
        requires
            old(self).wf(),
        ensures
            final(self).wf(),
            final(self).spec_address() == old(self).spec_address(),
            final(self).spec_bitmap() == old(self).spec_bitmap(),
            r is Ok ==> {
                &&& final(self).transcript() == old(self).transcript() + flush_txns(
                    old(self).spec_address(),
                    dest,
                    old(self).spec_bitmap(),
                    old(self).spec_mask(),
                )
                &&& final(self).spec_mask() == clean_mask()
            },
            mask_runs(old(self).spec_mask()).len() == 0 ==> r is Ok,
            r is Err ==> {
                &&& final(self).spec_mask() == old(self).spec_mask()
                &&& exists|n: int|
                    {
                        &&& 0 <= n <= flush_txns(
                            old(self).spec_address(),
                            dest,
                            old(self).spec_bitmap(),
                            old(self).spec_mask(),
                        ).len()
                        &&& final(self).transcript() == old(self).transcript() + flush_txns(
                            old(self).spec_address(),
                            dest,
                            old(self).spec_bitmap(),
                            old(self).spec_mask(),
                        ).take(n)
                    }
            },
    {
        let ghost addr = old(self).spec_address();
        let ghost txns = flush_txns(addr, dest, old(self).spec_bitmap(), old(self).spec_mask());
        let runs = compute_runs(&self.bitmask);
        if runs.len() == 0 {
            clear_mask(&mut self.bitmask);
            proof {
                assert(self.spec_mask() =~= clean_mask());
                assert(self.transcript() =~= old(self).transcript() + txns);
            }
            return Ok(());
        }
        let mut mode_cmds: Vec<Command> = Vec::new();
        mode_cmds.push(Command::SetAddressMode(AddressMode::Page));
        proof {
            assert(mode_cmds@ =~= seq![Command::SetAddressMode(AddressMode::Page)]);
        }
        match self.display.run(&mode_cmds) {
            Ok(()) => {},
            Err(e) => {
                proof {
                    assert(txns.take(0) =~= Seq::<Txn>::empty());
                    assert(self.transcript() =~= old(self).transcript() + txns.take(0));
                }
                return Err(e);
            },
        }
        proof {
            assert(txns.take(1) =~= seq![mode_txn(addr, AddressMode::Page)]);
            assert(self.transcript() =~= old(self).transcript() + txns.take(1));
        }
        let offset = dest.offset();
        let mut i: usize = 0;
        while i < runs.len()
            invariant
                i <= runs@.len(),
                self.wf(),
                self.spec_address() == addr,
                addr == old(self).spec_address(),
                self.spec_bitmap() == old(self).spec_bitmap(),
                self.spec_mask() == old(self).spec_mask(),
                offset == dest.spec_offset(),
                runs@ == mask_runs(old(self).spec_mask()),
                forall|q: int| 0 <= q < runs@.len() ==> (#[trigger] runs@[q]).wf(),
                txns == flush_txns(addr, dest, old(self).spec_bitmap(), old(self).spec_mask()),
                txns.len() == 1 + runs@.len(),
                self.transcript() == old(self).transcript() + txns.take(1 + i as int),
            decreases runs@.len() - i,
        {
            let r = runs[i];
            let mut cmds: Vec<Command> = Vec::new();
            cmds.push(Command::SetColumnAddress(offset + r.col));
            cmds.push(Command::SetPageAddress(r.page));
            let base: usize = (r.page as usize) * 64 + (r.col as usize);
            let run_len: usize = r.len as usize;
            let mut chunk: Vec<u8> = Vec::new();
            let mut j: usize = 0;
            while j < run_len
                invariant
                    j <= run_len,
                    base + run_len <= FRAME_BYTES,
                    self.wf(),
                    chunk@ == self.spec_bitmap().subrange(base as int, base as int + j as int),
                decreases run_len - j,
            {
                let b = self.bitmap[base + j];
                chunk.push(b);
                proof {
                    assert(self.spec_bitmap().subrange(base as int, base as int + (j + 1) as int)
                        =~= self.spec_bitmap().subrange(base as int, base as int + j as int).push(
                        self.spec_bitmap()[base as int + j as int],
                    ));
                }
                j = j + 1;
            }
            proof {
                assert(cmds@ =~= seq![
                    Command::SetColumnAddress((offset + r.col) as u8),
                    Command::SetPageAddress(r.page),
                ]);
                assert(all_valid(cmds@));
            }
            match self.display.run_then_write_to_ram(&cmds, &chunk) {
                Ok(()) => {
                    proof {
                        assert(txns[1 + i as int] == run_txn(
                            addr,
                            dest,
                            old(self).spec_bitmap(),
                            runs@[i as int],
                        ));
                        assert(txns.take(2 + i as int) =~= txns.take(1 + i as int).push(
                            txns[1 + i as int],
                        ));
                        assert(self.transcript() =~= old(self).transcript() + txns.take(
                            2 + i as int,
                        ));
                    }
                },
                Err(e) => {
                    proof {
                        assert(self.transcript() =~= old(self).transcript() + txns.take(
                            1 + i as int,
                        ));
                    }
                    return Err(e);
                },
            }
            i = i + 1;
        }
        clear_mask(&mut self.bitmask);
        proof {
            assert(self.spec_mask() =~= clean_mask());
            assert(txns.take(1 + runs@.len() as int) =~= txns);
        }
        Ok(())
    }

    /// Give the bus handle back; the buffered session is consumed.
    pub fn release(self) -> (r: T)
        ensures
            r == self.spec_display().spec_bus(),
    {
        self.display.release()
    }
}

/// Zero every byte of the mask.
fn clear_mask(mask: &mut Vec<u8>)
    ensures
        final(mask)@.len() == old(mask)@.len(),
        forall|q: int| 0 <= q < final(mask)@.len() ==> final(mask)@[q] == 0u8,
{
    let n = mask.len();
    let mut i: usize = 0;
    while i < n
        invariant
            i <= n,
            mask@.len() == n,
            forall|q: int| 0 <= q < i ==> mask@[q] == 0u8,
        decreases n - i,
    {
        mask.set(i, 0);
        i = i + 1;
    }
}

} // verus!
