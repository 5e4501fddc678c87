//! Scans: which address is read for which page, and which bit tells what came back.

use crate::bitmap::{bit, bits, words_for};
use crate::error::VmmError;
use crate::laws::{bitmap_words, bitmaps_begin_at_totals, running_totals};
use crate::memory::{words_before, words_before_grow};
use crate::scan::{
    lists_keys, logged_candidates, next_candidate_is_first, run_to_end, scan_run_is_exact,
    scanned_bits, settled, span_lens, ScanStep, ScanView, SlotSpan,
};
use vstd::prelude::*;

verus! {

/// A scan run to its end against a page map that answers by address, with the candidates `c`.
pub open spec fn scan_by_address(
    v: ScanView,
    c: spec_fn(int) -> Seq<u64>,
    f: spec_fn(usize) -> bool,
) -> ScanView
    decreases v.spans.len() - v.slot, v.idle(), v.pages(v.slot) - v.waiting->0.page,
{
    match v.step() {
        ScanStep::Over => v,
        ScanStep::Candidates { slot } => scan_by_address(v.fed(c(slot as int)), c, f),
        ScanStep::ReadPage { addr } => if v.waiting->0.page < v.pages(v.slot) {
            proof {
                next_candidate_is_first(
                    v.waiting->0.candidates,
                    v.waiting->0.page + 1,
                    v.pages(v.slot),
                );
            }
            scan_by_address(v.answered(f(addr)), c, f)
        } else {
            v
        },
    }
}

/// The answers that a page map gives by address, taken page by page.
pub open spec fn answers_at(
    spans: Seq<SlotSpan>,
    page_size: int,
    f: spec_fn(usize) -> bool,
) -> spec_fn(int, int) -> bool {
    |k: int, p: int| f((spans[k].base_addr + p * page_size) as usize)
}

proof fn lemma_scan_by_address(v: ScanView, c: spec_fn(int) -> Seq<u64>, f: spec_fn(usize) -> bool)
    requires
        0 <= v.slot <= v.spans.len() <= usize::MAX,
    ensures
        scan_by_address(v, c, f) == run_to_end(v, c, answers_at(v.spans, v.page_size, f)),
    decreases v.spans.len() - v.slot, v.idle(), v.pages(v.slot) - v.waiting->0.page,
{
    let d = answers_at(v.spans, v.page_size, f);
    if !v.is_over() {
        match v.waiting {
            None => {
                lemma_scan_by_address(v.fed(c(v.slot)), c, f);
            },
            Some(w) => {
                if w.page < v.pages(v.slot) {
                    next_candidate_is_first(w.candidates, w.page + 1, v.pages(v.slot));
                    assert(d(v.slot, w.page) == f(
                        (v.spans[v.slot].base_addr + w.page * v.page_size) as usize,
                    ));
                    lemma_scan_by_address(v.answered(d(v.slot, w.page)), c, f);
                }
            },
        }
    }
}

proof fn lemma_scanned_at(
    spans: Seq<SlotSpan>,
    page_size: int,
    c: spec_fn(int) -> Seq<u64>,
    d: spec_fn(int, int) -> bool,
    n: int,
    k: int,
    p: int,
)
    requires
        0 <= k < n <= spans.len(),
        page_size > 0,
        0 <= p < 64 * words_for(spans[k].len as int / page_size),
    ensures
        scanned_bits(spans, page_size, c, d, n).len() == 64 * words_before(
            span_lens(spans),
            page_size,
            n,
        ),
        0 <= 64 * words_before(span_lens(spans), page_size, k) + p < 64 * words_before(
            span_lens(spans),
            page_size,
            n,
        ),
        scanned_bits(spans, page_size, c, d, n)[64 * words_before(span_lens(spans), page_size, k)
            + p] == (p < spans[k].len as int / page_size && bit(c(k), p) && d(k, p)),
    decreases n,
{
    let lens = span_lens(spans);
    lemma_scanned_total(spans, page_size, c, d, n);
    lemma_scanned_total(spans, page_size, c, d, n - 1);
    words_before_grow(lens, page_size, k, n - 1);
    vstd::arithmetic::div_mod::lemma_div_pos_is_pos(spans[n - 1].len as int, page_size);
    assert(lens[n - 1] == spans[n - 1].len);
    if k < n - 1 {
        lemma_scanned_at(spans, page_size, c, d, n - 1, k, p);
    }
}

proof fn lemma_scanned_total(
    spans: Seq<SlotSpan>,
    page_size: int,
    c: spec_fn(int) -> Seq<u64>,
    d: spec_fn(int, int) -> bool,
    n: int,
)
    requires
        0 <= n <= spans.len(),
        page_size > 0,
    ensures
        scanned_bits(spans, page_size, c, d, n).len() == 64 * words_before(
            span_lens(spans),
            page_size,
            n,
        ),
    decreases n,
{
    if n > 0 {
        lemma_scanned_total(spans, page_size, c, d, n - 1);
        vstd::arithmetic::div_mod::lemma_div_pos_is_pos(spans[n - 1].len as int, page_size);
        assert(span_lens(spans)[n - 1] == spans[n - 1].len);
    }
}

/// The length of each span, in bytes.
pub open spec fn lengths_of(spans: Seq<SlotSpan>) -> Seq<int> {
    Seq::new(spans.len(), |k: int| spans[k].len as int)
}

/// A page is read at its own address: while page `p` of slot `k` is awaited, the address asked for
/// is the slot's first byte and `p` pages on, and lies inside the slot.
pub proof fn awaited_page_has_its_address(v: ScanView, addr: usize)
    requires
        0 <= v.slot < v.spans.len(),
        v.page_size > 0,
        v.spans[v.slot].base_addr + v.spans[v.slot].len <= usize::MAX,
        v.waiting is Some,
        0 <= v.waiting->0.page,
        (v.waiting->0.page + 1) * v.page_size <= v.spans[v.slot].len,
        v.step() == (ScanStep::ReadPage { addr }),
    ensures
        addr == v.spans[v.slot].base_addr + v.waiting->0.page * v.page_size,
        v.spans[v.slot].base_addr <= addr,
        addr + v.page_size <= v.spans[v.slot].base_addr + v.spans[v.slot].len,
{
    let page = v.waiting->0.page;
    let ps = v.page_size;
    assert((page + 1) * ps == page * ps + ps && page * ps >= 0) by (nonlinear_arith)
        requires
            page >= 0,
            ps > 0,
    ;
}

/// Two pages of a slot that are awaited at one address are one page.
pub proof fn awaited_addresses_differ(v: ScanView, w: ScanView)
    requires
        v.spans == w.spans,
        v.page_size == w.page_size,
        v.slot == w.slot,
        0 <= v.slot < v.spans.len(),
        v.page_size > 0,
        v.spans[v.slot].base_addr + v.spans[v.slot].len <= usize::MAX,
        v.waiting is Some && w.waiting is Some,
        0 <= v.waiting->0.page && 0 <= w.waiting->0.page,
        (v.waiting->0.page + 1) * v.page_size <= v.spans[v.slot].len,
        (w.waiting->0.page + 1) * v.page_size <= v.spans[v.slot].len,
        v.step() is ReadPage,
        v.step() == w.step(),
    ensures
        v.waiting->0.page == w.waiting->0.page,
{
    awaited_page_has_its_address(v, v.step()->addr);
    awaited_page_has_its_address(w, v.step()->addr);
    let a = v.waiting->0.page;
    let b = w.waiting->0.page;
    let ps = v.page_size;
    assert(a == b) by (nonlinear_arith)
        requires
            a * ps == b * ps,
            ps > 0,
    ;
}

/// A scan that is run against a page map `f` that answers by address marks page `p` of slot `k`
/// exactly where bit `p` of the slot's candidates is set and `f` says that the page's own address
/// was written. The slots' bitmaps stand one behind the other, each on words of its own, and the
/// bits behind a slot's last page are clear.
pub proof fn scan_marks_written_candidates(
    spans: Seq<SlotSpan>,
    page_size: int,
    c: spec_fn(int) -> Seq<u64>,
    f: spec_fn(usize) -> bool,
    totals: Seq<int>,
    words: Seq<u64>,
    k: int,
    p: int,
)
    requires
        page_size > 0,
        spans.len() <= usize::MAX,
        running_totals(totals, bitmap_words(lengths_of(spans), page_size)),
        bits(words) == scan_by_address(ScanView::start(spans, page_size), c, f).done,
        0 <= k < spans.len(),
        0 <= p < 64 * ((spans[k].len as int / page_size + 63) / 64),
    ensures
        scan_by_address(ScanView::start(spans, page_size), c, f).step() is Over,
        scan_by_address(ScanView::start(spans, page_size), c, f).failure is None,
        words.len() == totals[spans.len() as int],
        0 <= totals[k] + p / 64 < words.len(),
        words[totals[k] + p / 64] & (1u64 << ((p % 64) as u64)) != 0 <==> p < spans[k].len as int
            / page_size && c(k)[p / 64] & (1u64 << ((p % 64) as u64)) != 0 && f(
            (spans[k].base_addr + p * page_size) as usize,
        ),
{
    let v = ScanView::start(spans, page_size);
    let d = answers_at(spans, page_size, f);
    let n = spans.len() as int;
    lemma_scan_by_address(v, c, f);
    scan_run_is_exact(spans, page_size, c, d);
    lemma_scanned_at(spans, page_size, c, d, n, k, p);
    assert(span_lens(spans) =~= lengths_of(spans));
    bitmaps_begin_at_totals(lengths_of(spans), page_size, totals, k);
    bitmaps_begin_at_totals(lengths_of(spans), page_size, totals, n);
    let at = 64 * totals[k] + p;
    assert(bits(words)[at] == bit(words, at));
    assert(at / 64 == totals[k] + p / 64 && at % 64 == p % 64);
    assert(d(k, p) == f((spans[k].base_addr + p * page_size) as usize));
}

/// A scan begins with the first slot, nothing seen and nothing marked, and asks for that slot's
/// candidates; without slots it is over.
pub proof fn scan_begins_with_the_first_slot(spans: Seq<SlotSpan>, page_size: int)
    requires
        spans.len() <= usize::MAX,
    ensures
        ScanView::start(spans, page_size).done.len() == 0,
        ScanView::start(spans, page_size).failure is None,
        ScanView::start(spans, page_size).spans == spans,
        ScanView::start(spans, page_size).page_size == page_size,
        ScanView::start(spans, page_size).step() == if spans.len() == 0 {
            ScanStep::Over
        } else {
            ScanStep::Candidates { slot: 0 }
        },
{
}

/// A failure ends a scan and is kept; what was marked before it stays.
pub proof fn failure_ends_a_scan(v: ScanView, error: VmmError)
    ensures
        v.failed(error).step() is Over,
        v.failed(error).is_over(),
        v.failed(error).failure == Some(error),
        v.failed(error).done == v.done,
        v.failed(error).spans == v.spans,
{
}

/// A scan asks for nothing once it is over, and is over once it asks for nothing.
pub proof fn over_means_nothing_is_asked(v: ScanView)
    requires
        v.failure is None,
    ensures
        v.is_over() <==> v.step() is Over,
        v.is_over() <==> v.slot >= v.spans.len(),
{
}

/// Settling never goes back: it moves on to a page that has to be read, or to the end.
pub proof fn settling_moves_on(v: ScanView, candidates: Seq<Vec<u64>>)
    requires
        0 <= v.slot <= v.spans.len(),
    ensures
        settled(v, candidates).spans == v.spans,
        settled(v, candidates).page_size == v.page_size,
        v.slot <= settled(v, candidates).slot <= v.spans.len(),
        settled(v, candidates).failure == v.failure,
        v.waiting is Some ==> settled(v, candidates) == v,
        settled(v, candidates).is_over() || settled(v, candidates).waiting is Some,
    decreases v.spans.len() - v.slot, v.idle(),
{
    if !v.is_over() && v.waiting is None {
        settling_moves_on(v.fed(candidates[v.slot]@), candidates);
    }
}

/// A walk over a dirty log run to its end against a page map that answers by address.
pub open spec fn walk_by_address(
    v: ScanView,
    candidates: Seq<Vec<u64>>,
    f: spec_fn(usize) -> bool,
) -> ScanView
    decreases v.spans.len() - v.slot, v.pages(v.slot) - v.waiting->0.page,
{
    match v.step() {
        ScanStep::ReadPage { addr } => if 0 <= v.slot && v.waiting->0.page < v.pages(v.slot) {
            proof {
                next_candidate_is_first(
                    v.waiting->0.candidates,
                    v.waiting->0.page + 1,
                    v.pages(v.slot),
                );
                settling_moves_on(v.answered(f(addr)), candidates);
            }
            walk_by_address(settled(v.answered(f(addr)), candidates), candidates, f)
        } else {
            v
        },
        _ => v,
    }
}

proof fn lemma_settling_keeps_the_scan(
    v: ScanView,
    candidates: Seq<Vec<u64>>,
    f: spec_fn(usize) -> bool,
)
    requires
        0 <= v.slot <= v.spans.len() <= usize::MAX,
    ensures
        scan_by_address(settled(v, candidates), |k: int| candidates[k]@, f) == scan_by_address(
            v,
            |k: int| candidates[k]@,
            f,
        ),
    decreases v.spans.len() - v.slot, v.idle(),
{
    if !v.is_over() && v.waiting is None {
        let c = |k: int| candidates[k]@;
        assert(c(v.slot) == candidates[v.slot]@);
        lemma_settling_keeps_the_scan(v.fed(candidates[v.slot]@), candidates, f);
    }
}

proof fn lemma_walk_is_scan(v: ScanView, candidates: Seq<Vec<u64>>, f: spec_fn(usize) -> bool)
    requires
        0 <= v.slot <= v.spans.len() <= usize::MAX,
        v.is_over() || v.waiting is Some,
    ensures
        walk_by_address(v, candidates, f) == scan_by_address(v, |k: int| candidates[k]@, f),
    decreases v.spans.len() - v.slot, v.pages(v.slot) - v.waiting->0.page,
{
    if !v.is_over() {
        let w = v.waiting->0;
        if w.page < v.pages(v.slot) {
            let next = v.answered(f(v.step()->addr));
            next_candidate_is_first(w.candidates, w.page + 1, v.pages(v.slot));
            settling_moves_on(next, candidates);
            lemma_settling_keeps_the_scan(next, candidates, f);
            lemma_walk_is_scan(settled(next, candidates), candidates, f);
        }
    }
}

/// A walk over the hypervisor's dirty log marks page `p` of memory slot `k` exactly where the log
/// has a `k`-th slot, counted from the lowest slot number up, bit `p` of that slot's own bitmap is
/// set, and the page map says that the page's own address was written. This holds of every page of
/// the slot; the bits behind its last page are clear.
pub proof fn walk_marks_logged_writes(
    log: Map<u32, Vec<u64>>,
    order: Seq<u32>,
    spans: Seq<SlotSpan>,
    page_size: int,
    candidates: Seq<Vec<u64>>,
    f: spec_fn(usize) -> bool,
    totals: Seq<int>,
    words: Seq<u64>,
    k: int,
    p: int,
)
    requires
        page_size > 0,
        spans.len() <= usize::MAX,
        forall|i: int, j: int| 0 <= i < j < order.len() ==> order[i] < order[j],
        forall|slot: u32| #[trigger] order.contains(slot) <==> log.contains_key(slot),
        candidates.len() == spans.len(),
        forall|o: Seq<u32>, i: int| #[trigger]
            lists_keys(o, log) && 0 <= i < spans.len() ==> (#[trigger] candidates[i])@
                == logged_candidates(log, o, spans, page_size, i),
        running_totals(totals, bitmap_words(lengths_of(spans), page_size)),
        bits(words) == walk_by_address(
            settled(ScanView::start(spans, page_size), candidates),
            candidates,
            f,
        ).done,
        0 <= k < spans.len(),
        0 <= p < 64 * ((spans[k].len as int / page_size + 63) / 64),
        k < order.len() ==> spans[k].len as int / page_size <= 64 * log[order[k]]@.len(),
    ensures
        words.len() == totals[spans.len() as int],
        0 <= totals[k] + p / 64 < words.len(),
        words[totals[k] + p / 64] & (1u64 << ((p % 64) as u64)) != 0 <==> p < spans[k].len as int
            / page_size && k < order.len() && log[order[k]]@[p / 64] & (1u64 << ((p % 64) as u64))
            != 0 && f((spans[k].base_addr + p * page_size) as usize),
{
    let v = ScanView::start(spans, page_size);
    let c = |k: int| candidates[k]@;
    settling_moves_on(v, candidates);
    lemma_walk_is_scan(settled(v, candidates), candidates, f);
    lemma_settling_keeps_the_scan(v, candidates, f);
    scan_marks_written_candidates(spans, page_size, c, f, totals, words, k, p);
    assert(lists_keys(order, log));
    assert(candidates[k]@ == logged_candidates(log, order, spans, page_size, k));
    if k >= order.len() && p < spans[k].len as int / page_size {
        let b = (p % 64) as u64;
        assert(c(k)[p / 64] == 0u64);
        assert(0u64 & (1u64 << b) == 0) by (bit_vector);
    }
}

} // verus!
