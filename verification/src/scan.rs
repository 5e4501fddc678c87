//! Walking the guest's pages to find those that were written.
//!
//! The page map and the residency of pages are read outside. A [`DirtyScan`] says which read comes
//! next and takes the answer in, until every slot is done or a read has failed.

use crate::bitmap::{
    bit, bits, bits_append, padded_bits, set_bit, test_bit, word_bit, word_within, words_for,
    zeroed,
};
use crate::error::{PagemapError, VmError, VmmError};
use crate::memory::{resident_words, words_before, words_before_grow};
use std::collections::HashMap;
use vstd::prelude::*;

verus! {

broadcast use vstd::std_specs::hash::group_hash_axioms;

/// Where a slot of guest memory lies in the monitor's address space.
#[derive(Debug, Clone, Copy, PartialEq, Eq)]
pub struct SlotSpan {
    /// Host virtual address of the first byte.
    pub base_addr: usize,
    /// Length in bytes.
    pub len: usize,
}

/// The lengths of the spans, in bytes.
pub open spec fn span_lens(spans: Seq<SlotSpan>) -> Seq<int> {
    spans.map_values(|s: SlotSpan| s.len as int)
}

/// Every span ends inside the address space.
pub open spec fn spans_fit(spans: Seq<SlotSpan>) -> bool {
    forall|k: int|
        0 <= k < spans.len() ==> (#[trigger] spans[k]).base_addr + spans[k].len <= usize::MAX
}

/// What a scan needs next.
#[derive(Debug, Clone, Copy, PartialEq, Eq)]
pub enum ScanStep {
    /// The pages of slot `slot` that are worth looking at.
    Candidates {
        /// The slot.
        slot: usize,
    },
    /// Whether the page at host address `addr` was written.
    ReadPage {
        /// The page's address.
        addr: usize,
    },
    /// Nothing more.
    Over,
}

/// The first page at or after `from` that is set in `candidates`, or `pages` where none is.
pub open spec fn next_candidate(candidates: Seq<u64>, from: int, pages: int) -> int
    decreases pages - from,
{
    if from >= pages || bit(candidates, from) {
        if from >= pages {
            pages
        } else {
            from
        }
    } else {
        next_candidate(candidates, from + 1, pages)
    }
}

/// A slot that is being walked.
#[verifier::ext_equal]
pub struct PageWait {
    /// The pages that are worth looking at.
    pub candidates: Seq<u64>,
    /// The page whose answer is awaited.
    pub page: int,
    /// The pages found written so far.
    pub marked: Seq<bool>,
}

/// A scan, seen from outside.
#[verifier::ext_equal]
pub struct ScanView {
    /// The slots to walk.
    pub spans: Seq<SlotSpan>,
    /// Bytes in a page.
    pub page_size: int,
    /// The slot whose turn it is.
    pub slot: int,
    /// The walk of that slot, once its candidates are known.
    pub waiting: Option<PageWait>,
    /// The bitmaps of the slots before it, laid end to end.
    pub done: Seq<bool>,
    /// The failure that ended the scan.
    pub failure: Option<VmmError>,
}

impl ScanView {
    /// Pages in slot `k`.
    pub open spec fn pages(self, k: int) -> int {
        self.spans[k].len as int / self.page_size
    }

    /// A scan over `spans` that has not begun.
    pub open spec fn start(spans: Seq<SlotSpan>, page_size: int) -> ScanView {
        ScanView {
            spans,
            page_size,
            slot: 0,
            waiting: None,
            done: Seq::empty(),
            failure: None,
        }
    }

    /// Whether the scan has ended.
    pub open spec fn is_over(self) -> bool {
        self.failure is Some || self.slot >= self.spans.len()
    }

    /// What the scan needs next.
    pub open spec fn step(self) -> ScanStep {
        if self.is_over() {
            ScanStep::Over
        } else {
            match self.waiting {
                None => ScanStep::Candidates { slot: self.slot as usize },
                Some(w) => ScanStep::ReadPage {
                    addr: (self.spans[self.slot].base_addr + w.page * self.page_size) as usize,
                },
            }
        }
    }

    /// The scan once it has gone on to the next candidate page at or after `from`, or, where the
    /// slot has none left, to the next slot.
    pub open spec fn sought(self, candidates: Seq<u64>, marked: Seq<bool>, from: int) -> ScanView {
        let page = next_candidate(candidates, from, self.pages(self.slot));
        if page < self.pages(self.slot) {
            ScanView { waiting: Some(PageWait { candidates, page, marked }), ..self }
        } else {
            ScanView { slot: self.slot + 1, waiting: None, done: self.done + marked, ..self }
        }
    }

    /// The scan once the candidate pages of its slot are known.
    pub open spec fn fed(self, candidates: Seq<u64>) -> ScanView {
        self.sought(candidates, padded_bits(self.pages(self.slot), |i: int| false), 0)
    }

    /// The scan once the awaited page is known to be written or not.
    pub open spec fn answered(self, written: bool) -> ScanView {
        let w = self.waiting->0;
        let marked = if written {
            w.marked.update(w.page, true)
        } else {
            w.marked
        };
        self.sought(w.candidates, marked, w.page + 1)
    }

    /// One while the scan stands between two slots, zero while it walks one.
    pub open spec fn idle(self) -> int {
        if self.waiting is None {
            1
        } else {
            0
        }
    }

    /// The scan once a read has failed.
    pub open spec fn failed(self, error: VmmError) -> ScanView {
        ScanView { failure: Some(error), ..self }
    }

    /// Whether the scan has seen the candidates `c` and the answers `d` so far, and nothing else:
    /// `c(k)` are the candidates of slot `k`, and `d(k, p)` tells whether page `p` of it was
    /// written.
    pub open spec fn has_seen(
        self,
        c: spec_fn(int) -> Seq<u64>,
        d: spec_fn(int, int) -> bool,
    ) -> bool {
        &&& self.done == scanned_bits(self.spans, self.page_size, c, d, self.slot)
        &&& self.waiting matches Some(w) ==> {
            &&& w.candidates == c(self.slot)
            &&& w.marked.len() == 64 * words_for(self.pages(self.slot))
            &&& 0 <= w.page < self.pages(self.slot)
            &&& forall|p: int|
                0 <= p < w.marked.len() ==> #[trigger] w.marked[p] == (p < w.page && bit(
                    c(self.slot),
                    p,
                ) && d(self.slot, p))
        }
    }
}

/// The bitmap of slot `k`: the candidate pages that were written.
pub open spec fn slot_scanned_bits(
    spans: Seq<SlotSpan>,
    page_size: int,
    c: spec_fn(int) -> Seq<u64>,
    d: spec_fn(int, int) -> bool,
    k: int,
) -> Seq<bool> {
    padded_bits(spans[k].len as int / page_size, |p: int| bit(c(k), p) && d(k, p))
}

/// The bitmaps of the first `n` slots, laid end to end.
pub open spec fn scanned_bits(
    spans: Seq<SlotSpan>,
    page_size: int,
    c: spec_fn(int) -> Seq<u64>,
    d: spec_fn(int, int) -> bool,
    n: int,
) -> Seq<bool>
    decreases n,
{
    if n <= 0 {
        Seq::empty()
    } else {
        scanned_bits(spans, page_size, c, d, n - 1) + slot_scanned_bits(
            spans,
            page_size,
            c,
            d,
            n - 1,
        )
    }
}

/// The next candidate is a candidate, and no page before it is.
pub proof fn next_candidate_is_first(candidates: Seq<u64>, from: int, pages: int)
    requires
        from <= pages,
    ensures
        from <= next_candidate(candidates, from, pages) <= pages,
        next_candidate(candidates, from, pages) < pages ==> bit(
            candidates,
            next_candidate(candidates, from, pages),
        ),
        forall|p: int|
            from <= p < next_candidate(candidates, from, pages) ==> !#[trigger] bit(candidates, p),
    decreases pages - from,
{
    if from < pages && !bit(candidates, from) {
        next_candidate_is_first(candidates, from + 1, pages);
    }
}

proof fn lemma_sought_has_seen(
    v: ScanView,
    c: spec_fn(int) -> Seq<u64>,
    d: spec_fn(int, int) -> bool,
    marked: Seq<bool>,
    from: int,
)
    requires
        0 <= v.slot < v.spans.len(),
        v.page_size > 0,
        v.done == scanned_bits(v.spans, v.page_size, c, d, v.slot),
        0 <= from <= v.pages(v.slot),
        marked.len() == 64 * words_for(v.pages(v.slot)),
        forall|p: int|
            0 <= p < marked.len() ==> #[trigger] marked[p] == (p < from && bit(c(v.slot), p) && d(
                v.slot,
                p,
            )),
    ensures
        v.sought(c(v.slot), marked, from).has_seen(c, d),
{
    let pages = v.pages(v.slot);
    next_candidate_is_first(c(v.slot), from, pages);
    let page = next_candidate(c(v.slot), from, pages);
    if page >= pages {
        assert(marked =~= slot_scanned_bits(v.spans, v.page_size, c, d, v.slot));
    }
}

/// A scan that has not begun has seen nothing.
pub proof fn start_has_seen(
    spans: Seq<SlotSpan>,
    page_size: int,
    c: spec_fn(int) -> Seq<u64>,
    d: spec_fn(int, int) -> bool,
)
    ensures
        ScanView::start(spans, page_size).has_seen(c, d),
{
}

/// Feeding a slot's candidates keeps the scan faithful to them.
pub proof fn fed_has_seen(v: ScanView, c: spec_fn(int) -> Seq<u64>, d: spec_fn(int, int) -> bool)
    requires
        v.has_seen(c, d),
        0 <= v.slot < v.spans.len(),
        v.page_size > 0,
        v.waiting is None,
    ensures
        v.fed(c(v.slot)).has_seen(c, d),
{
    let clear = padded_bits(v.pages(v.slot), |i: int| false);
    vstd::arithmetic::div_mod::lemma_div_pos_is_pos(v.spans[v.slot].len as int, v.page_size);
    lemma_sought_has_seen(v, c, d, clear, 0);
}

/// Answering for the awaited page keeps the scan faithful to the answers.
pub proof fn answered_has_seen(
    v: ScanView,
    c: spec_fn(int) -> Seq<u64>,
    d: spec_fn(int, int) -> bool,
)
    requires
        v.has_seen(c, d),
        0 <= v.slot < v.spans.len(),
        v.page_size > 0,
        v.waiting is Some,
        bit(c(v.slot), v.waiting->0.page),
    ensures
        v.answered(d(v.slot, v.waiting->0.page)).has_seen(c, d),
{
    let w = v.waiting->0;
    let written = d(v.slot, w.page);
    let marked = if written {
        w.marked.update(w.page, true)
    } else {
        w.marked
    };
    lemma_sought_has_seen(v, c, d, marked, w.page + 1);
}

/// A scan that ends without a failure has marked exactly the candidate pages that were written: no
/// page that is not a candidate, and every candidate page whose answer was yes.
pub proof fn finished_scan_is_exact(
    v: ScanView,
    c: spec_fn(int) -> Seq<u64>,
    d: spec_fn(int, int) -> bool,
)
    requires
        v.has_seen(c, d),
        v.is_over(),
        v.failure is None,
        0 <= v.slot <= v.spans.len(),
    ensures
        v.done == scanned_bits(v.spans, v.page_size, c, d, v.spans.len() as int),
{
}

/// The scan once it has been run to its end, with the candidates `c` and the answers `d`.
pub open spec fn run_to_end(
    v: ScanView,
    c: spec_fn(int) -> Seq<u64>,
    d: spec_fn(int, int) -> bool,
) -> ScanView
    decreases v.spans.len() - v.slot, v.idle(), v.pages(v.slot) - v.waiting->0.page,
{
    if v.is_over() {
        v
    } else {
        match v.waiting {
            None => run_to_end(v.fed(c(v.slot)), c, d),
            Some(w) => if w.page < v.pages(v.slot) {
                proof {
                    next_candidate_is_first(w.candidates, w.page + 1, v.pages(v.slot));
                }
                run_to_end(v.answered(d(v.slot, w.page)), c, d)
            } else {
                v
            },
        }
    }
}

proof fn lemma_run_to_end(v: ScanView, c: spec_fn(int) -> Seq<u64>, d: spec_fn(int, int) -> bool)
    requires
        v.has_seen(c, d),
        0 <= v.slot <= v.spans.len(),
        v.page_size > 0,
        v.failure is None,
        v.waiting is Some ==> v.slot < v.spans.len() && bit(c(v.slot), v.waiting->0.page),
    ensures
        run_to_end(v, c, d).is_over(),
        run_to_end(v, c, d).failure is None,
        run_to_end(v, c, d).done == scanned_bits(
            v.spans,
            v.page_size,
            c,
            d,
            v.spans.len() as int,
        ),
    decreases v.spans.len() - v.slot, v.idle(), v.pages(v.slot) - v.waiting->0.page,
{
    if !v.is_over() {
        match v.waiting {
            None => {
                fed_has_seen(v, c, d);
                vstd::arithmetic::div_mod::lemma_div_pos_is_pos(
                    v.spans[v.slot].len as int,
                    v.page_size,
                );
                next_candidate_is_first(c(v.slot), 0, v.pages(v.slot));
                lemma_run_to_end(v.fed(c(v.slot)), c, d);
            },
            Some(w) => {
                answered_has_seen(v, c, d);
                next_candidate_is_first(c(v.slot), w.page + 1, v.pages(v.slot));
                lemma_run_to_end(v.answered(d(v.slot, w.page)), c, d);
            },
        }
    }
}

/// A scan that is run to its end, and never meets a failure, marks exactly the candidate pages that
/// were written.
pub proof fn scan_run_is_exact(
    spans: Seq<SlotSpan>,
    page_size: int,
    c: spec_fn(int) -> Seq<u64>,
    d: spec_fn(int, int) -> bool,
)
    requires
        page_size > 0,
    ensures
        run_to_end(ScanView::start(spans, page_size), c, d).is_over(),
        run_to_end(ScanView::start(spans, page_size), c, d).failure is None,
        run_to_end(ScanView::start(spans, page_size), c, d).done == scanned_bits(
            spans,
            page_size,
            c,
            d,
            spans.len() as int,
        ),
{
    start_has_seen(spans, page_size, c, d);
    lemma_run_to_end(ScanView::start(spans, page_size), c, d);
}

/// A walk over the guest's pages.
#[derive(Debug)]
pub struct DirtyScan {
    /// The slots to walk.
    pub spans: Vec<SlotSpan>,
    /// Bytes in a page.
    pub page_size: usize,
    /// The slot whose turn it is.
    pub slot: usize,
    /// Its candidate pages, once known.
    pub candidates: Option<Vec<u64>>,
    /// The page whose answer is awaited.
    pub page: usize,
    /// The pages of the slot found written so far.
    pub marked: Vec<u64>,
    /// The bitmaps of the slots before it, laid end to end.
    pub done: Vec<u64>,
    /// The failure that ended the scan.
    pub failure: Option<VmmError>,
}

impl View for DirtyScan {
    type V = ScanView;

    open spec fn view(&self) -> ScanView {
        ScanView {
            spans: self.spans@,
            page_size: self.page_size as int,
            slot: self.slot as int,
            waiting: match self.candidates {
                None => None,
                Some(candidates) => Some(
                    PageWait {
                        candidates: candidates@,
                        page: self.page as int,
                        marked: bits(self.marked@),
                    },
                ),
            },
            done: bits(self.done@),
            failure: self.failure,
        }
    }
}

impl DirtyScan {
    /// The scan is at a place that a walk can be at.
    pub open spec fn wf(self) -> bool {
        &&& self.page_size > 0
        &&& spans_fit(self.spans@)
        &&& self.slot <= self.spans@.len()
        &&& self.done@.len() == words_before(
            span_lens(self.spans@),
            self.page_size as int,
            self.slot as int,
        )
        &&& self.candidates matches Some(candidates) ==> {
            &&& self.slot < self.spans@.len()
            &&& self@.pages(self.slot as int) <= 64 * candidates@.len()
            &&& self.page < self@.pages(self.slot as int)
            &&& bit(candidates@, self.page as int)
            &&& self.marked@.len() == words_for(self@.pages(self.slot as int))
        }
    }

    /// Begins a scan over `spans` in pages of `page_size` bytes. Where the page map could not be
    /// opened the scan is over at once.
    pub fn new(
        spans: Vec<SlotSpan>,
        page_size: usize,
        opened: Result<(), PagemapError>,
    ) -> (scan: DirtyScan)
        requires
            page_size > 0,
            spans_fit(spans@),
        ensures
            scan.wf(),
            scan@ == match opened {
                Ok(_) => ScanView::start(spans@, page_size as int),
                Err(e) => ScanView::start(spans@, page_size as int).failed(VmmError::Pagemap(e)),
            },
    {
        let failure: Option<VmmError> = match opened {
            Ok(()) => None,
            Err(e) => Some(VmmError::Pagemap(e)),
        };
        let scan = DirtyScan {
            spans,
            page_size,
            slot: 0,
            candidates: None,
            page: 0,
            marked: Vec::new(),
            done: Vec::new(),
            failure,
        };
        assert(bits(scan.done@) =~= Seq::<bool>::empty());
        scan
    }

    /// What the scan needs next.
    pub fn step(&self) -> (step: ScanStep)
        requires
            self.wf(),
        ensures
            step == self@.step(),
    {
        if self.failure.is_some() || self.slot >= self.spans.len() {
            return ScanStep::Over;
        }
        match &self.candidates {
            None => ScanStep::Candidates { slot: self.slot },
            Some(_) => {
                proof {
                    lemma_page_inside(
                        self.spans@[self.slot as int].len as int,
                        self.page_size as int,
                        self.page as int,
                    );
                }
                ScanStep::ReadPage {
                    addr: self.spans[self.slot].base_addr + self.page * self.page_size,
                }
            },
        }
    }

    /// Goes on to the next candidate page at or after `from`, or to the next slot.
    fn seek(&mut self, candidates: Vec<u64>, marked: Vec<u64>, from: usize)
        requires
            old(self).wf(),
            old(self).slot < old(self).spans@.len(),
            old(self).candidates is None,
            from <= old(self)@.pages(old(self).slot as int) <= 64 * candidates@.len(),
            marked@.len() == words_for(old(self)@.pages(old(self).slot as int)),
        ensures
            final(self).wf(),
            final(self)@ == old(self)@.sought(candidates@, bits(marked@), from as int),
    {
        let pages: usize = self.spans[self.slot].len / self.page_size;
        let mut page: usize = from;
        while page < pages && !test_bit(candidates.as_slice(), page)
            invariant
                from <= page <= pages <= 64 * candidates@.len(),
                next_candidate(candidates@, from as int, pages as int) == next_candidate(
                    candidates@,
                    page as int,
                    pages as int,
                ),
            decreases pages - page,
        {
            page = page + 1;
        }
        let ghost before = *self;
        if page < pages {
            self.candidates = Some(candidates);
            self.page = page;
            self.marked = marked;
        } else {
            proof {
                bits_append(self.done@, marked@);
                assert(span_lens(self.spans@)[self.slot as int]
                    == self.spans@[self.slot as int].len);
            }
            assert(self.spans@.len() == self.spans.len());
            let mut words: Vec<u64> = marked;
            self.done.append(&mut words);
            self.slot = self.slot + 1;
        }
        assert(self@ =~= before@.sought(candidates@, bits(marked@), from as int));
    }

    /// Takes in the candidate pages of the slot whose turn it is.
    pub fn supply_candidates(&mut self, candidates: Vec<u64>)
        requires
            old(self).wf(),
            old(self)@.step() is Candidates,
            old(self)@.pages(old(self).slot as int) <= 64 * candidates@.len(),
        ensures
            final(self).wf(),
            final(self)@ == old(self)@.fed(candidates@),
    {
        let marked = zeroed(self.spans[self.slot].len / self.page_size);
        self.seek(candidates, marked, 0);
    }

    /// Takes in whether the awaited page was written.
    pub fn supply_page(&mut self, written: bool)
        requires
            old(self).wf(),
            old(self)@.step() is ReadPage,
        ensures
            final(self).wf(),
            final(self)@ == old(self)@.answered(written),
    {
        if let Some(candidates) = self.candidates.take() {
            let mut marked: Vec<u64> = Vec::new();
            std::mem::swap(&mut marked, &mut self.marked);
            if written {
                set_bit(&mut marked, self.page);
            }
            let from: usize = self.page + 1;
            self.seek(candidates, marked, from);
        }
    }

    /// Ends the scan: the residency of a slot's pages could not be read.
    pub fn candidates_failed(&mut self, error: VmError)
        requires
            old(self).wf(),
            old(self)@.step() is Candidates,
        ensures
            final(self).wf(),
            final(self)@ == old(self)@.failed(VmmError::Vm(error)),
    {
        self.failure = Some(VmmError::Vm(error));
    }

    /// Ends the scan: the page map could not be read.
    pub fn page_failed(&mut self, error: PagemapError)
        requires
            old(self).wf(),
            old(self)@.step() is ReadPage,
        ensures
            final(self).wf(),
            final(self)@ == old(self)@.failed(VmmError::Pagemap(error)),
    {
        self.failure = Some(VmmError::Pagemap(error));
    }

    /// Hands out the bitmap, or the failure that ended the scan.
    pub fn finish(self) -> (res: Result<Vec<u64>, VmmError>)
        requires
            self.wf(),
            self@.is_over(),
        ensures
            match self.failure {
                Some(e) => res == Err::<Vec<u64>, VmmError>(e),
                None => res matches Ok(words) && bits(words@) == self@.done && words@.len()
                    == words_before(
                    span_lens(self.spans@),
                    self.page_size as int,
                    self.spans@.len() as int,
                ),
            },
    {
        match self.failure {
            Some(e) => Err(e),
            None => Ok(self.done),
        }
    }
}

proof fn lemma_page_inside(len: int, page_size: int, page: int)
    requires
        len >= 0,
        page_size > 0,
        0 <= page < len / page_size,
    ensures
        0 <= page * page_size,
        page * page_size + page_size <= len,
{
    vstd::arithmetic::div_mod::lemma_fundamental_div_mod(len, page_size);
    let pages = len / page_size;
    assert(0 <= page * page_size && page * page_size + page_size <= len) by (nonlinear_arith)
        requires
            page_size > 0,
            0 <= page,
            page + 1 <= pages,
            page_size * pages <= len,
    ;
}

/// The dirty pages that the hypervisor logged, by memory slot.
pub type DirtyBitmap = HashMap<u32, Vec<u64>>;

/// Whether `order` lists the keys of `map`, each once, from the lowest up.
pub open spec fn lists_keys(order: Seq<u32>, map: Map<u32, Vec<u64>>) -> bool {
    &&& forall|i: int, j: int| 0 <= i < j < order.len() ==> order[i] < order[j]
    &&& forall|k: u32| #[trigger] order.contains(k) <==> map.contains_key(k)
}

/// The keys of a map can be listed from the lowest up in one way only.
pub proof fn key_order_is_unique(a: Seq<u32>, b: Seq<u32>, map: Map<u32, Vec<u64>>)
    requires
        lists_keys(a, map),
        lists_keys(b, map),
    ensures
        a == b,
    decreases a.len(),
{
    if a.len() == 0 {
        if b.len() > 0 {
            assert(b.contains(b[0]));
            assert(a.contains(b[0]));
        }
        assert(a =~= b);
    } else {
        assert(a.contains(a.last()));
        assert(b.contains(a.last()));
        let i = choose|i: int| 0 <= i < b.len() && b[i] == a.last();
        assert(b.contains(b.last()));
        assert(a.contains(b.last()));
        let j = choose|j: int| 0 <= j < a.len() && a[j] == b.last();
        assert(a.last() == b.last());
        let shorter = map.remove(a.last());
        assert forall|k: u32| #[trigger] a.drop_last().contains(k) <==> shorter.contains_key(k) by {
            if a.drop_last().contains(k) {
                let x = choose|x: int| 0 <= x < a.len() - 1 && a[x] == k;
                assert(a.contains(k));
            }
            if shorter.contains_key(k) {
                assert(a.contains(k));
                let x = choose|x: int| 0 <= x < a.len() && a[x] == k;
                assert(a.drop_last()[x] == k);
            }
        }
        assert forall|k: u32| #[trigger] b.drop_last().contains(k) <==> shorter.contains_key(k) by {
            if b.drop_last().contains(k) {
                let x = choose|x: int| 0 <= x < b.len() - 1 && b[x] == k;
                assert(b.contains(k));
            }
            if shorter.contains_key(k) {
                assert(b.contains(k));
                let x = choose|x: int| 0 <= x < b.len() && b[x] == k;
                assert(b.drop_last()[x] == k);
            }
        }
        key_order_is_unique(a.drop_last(), b.drop_last(), shorter);
        assert(a =~= a.drop_last().push(a.last()));
        assert(b =~= b.drop_last().push(b.last()));
    }
}

/// Puts `key` in its place among sorted keys.
fn insert_sorted(order: &mut Vec<u32>, key: u32)
    requires
        forall|i: int, j: int|
            0 <= i < j < old(order)@.len() ==> old(order)@[i] < old(order)@[j],
        !old(order)@.contains(key),
    ensures
        forall|i: int, j: int|
            0 <= i < j < final(order)@.len() ==> final(order)@[i] < final(order)@[j],
        forall|k: u32| #[trigger]
            final(order)@.contains(k) <==> k == key || old(order)@.contains(k),
{
    let mut at: usize = 0;
    while at < order.len() && order[at] < key
        invariant
            0 <= at <= order@.len(),
            forall|i: int| 0 <= i < at ==> order@[i] < key,
        decreases order@.len() - at,
    {
        at = at + 1;
    }
    let ghost before = order@;
    order.insert(at, key);
    proof {
        if at < before.len() {
            assert(before.contains(before[at as int]));
            assert(before[at as int] > key);
        }
        assert(order@ == before.insert(at as int, key));
        assert forall|k: u32| #[trigger] order@.contains(k) implies k == key || before.contains(
            k,
        ) by {
            let i = choose|i: int| 0 <= i < order@.len() && order@[i] == k;
            if i < at {
                assert(before[i] == k);
            } else if i > at {
                assert(before[i - 1] == k);
            }
        }
        assert forall|k: u32| k == key || before.contains(k) implies #[trigger] order@.contains(
            k,
        ) by {
            if k == key {
                assert(order@[at as int] == k);
            } else {
                let i = choose|i: int| 0 <= i < before.len() && before[i] == k;
                if i < at {
                    assert(order@[i] == k);
                } else {
                    assert(order@[i + 1] == k);
                }
            }
        }
    }
}

/// Lists the slot numbers of a dirty log from the lowest up.
pub fn slot_order(log: &DirtyBitmap) -> (order: Vec<u32>)
    ensures
        lists_keys(order@, log@),
{
    let mut order: Vec<u32> = Vec::new();
    for key in iter: log.keys()
        invariant
            iter.seq().unref().to_set() == log@.dom(),
            iter.seq().no_duplicates(),
            forall|i: int, j: int| 0 <= i < j < order@.len() ==> order@[i] < order@[j],
            forall|k: u32| #[trigger]
                order@.contains(k) <==> exists|x: int|
                    0 <= x < iter.index() && *#[trigger] iter.seq()[x] == k,
            forall|k: u32| #[trigger] order@.contains(k) ==> log@.contains_key(k),
            forall|k: u32| #[trigger]
                log@.contains_key(k) ==> order@.contains(k) || exists|x: int|
                    iter.index() <= x < iter.seq().len() && *#[trigger] iter.seq()[x] == k,
    {
        assert(!order@.contains(*key));
        assert(log@.contains_key(*key)) by {
            assert(iter.seq().unref()[iter.index()] == *key);
            assert(iter.seq().unref().to_set().contains(*key));
        }
        insert_sorted(&mut order, *key);
    }
    order
}

/// The candidate pages that a dirty log gives slot `k`: the log's slots are matched to the memory
/// slots in order of their numbers, and a memory slot without one has no dirty page.
pub open spec fn logged_candidates(
    log: Map<u32, Vec<u64>>,
    order: Seq<u32>,
    spans: Seq<SlotSpan>,
    page_size: int,
    k: int,
) -> Seq<u64> {
    if k < order.len() {
        log[order[k]]@
    } else {
        Seq::new(words_for(spans[k].len as int / page_size) as nat, |i: int| 0u64)
    }
}

/// Turns a dirty log into the candidate pages of each slot.
pub fn kvm_candidates(log: &DirtyBitmap, spans: &Vec<SlotSpan>, page_size: usize) -> (candidates:
    Vec<Vec<u64>>)
    requires
        page_size > 0,
    ensures
        candidates@.len() == spans@.len(),
        exists|order: Seq<u32>| #[trigger] lists_keys(order, log@),
        forall|order: Seq<u32>, k: int| #[trigger]
            lists_keys(order, log@) && 0 <= k < spans@.len() ==> (#[trigger] candidates@[k])@
                == logged_candidates(log@, order, spans@, page_size as int, k),
{
    let order = slot_order(log);
    let mut candidates: Vec<Vec<u64>> = Vec::new();
    let mut k: usize = 0;
    while k < spans.len()
        invariant
            0 <= k <= spans@.len(),
            page_size > 0,
            lists_keys(order@, log@),
            candidates@.len() == k,
            forall|i: int|
                0 <= i < k ==> (#[trigger] candidates@[i])@ == logged_candidates(
                    log@,
                    order@,
                    spans@,
                    page_size as int,
                    i,
                ),
        decreases spans@.len() - k,
    {
        let clear: Vec<u64> = vec![0u64; crate::bitmap::word_count(spans[k].len / page_size)];
        let words: Vec<u64> = if k < order.len() {
            assert(order@.contains(order@[k as int]));
            match log.get(&order[k]) {
                Some(words) => words.clone(),
                None => clear,
            }
        } else {
            clear
        };
        assert(words@ =~= logged_candidates(log@, order@, spans@, page_size as int, k as int));
        candidates.push(words);
        k = k + 1;
    }
    assert forall|other: Seq<u32>, i: int| #[trigger]
        lists_keys(other, log@) && 0 <= i < spans@.len() implies (#[trigger] candidates@[i])@
        == logged_candidates(log@, other, spans@, page_size as int, i) by {
        key_order_is_unique(order@, other, log@);
    }
    candidates
}

/// The scan once every slot whose turn came has been given its candidates, up to the first page
/// that has to be read.
pub open spec fn settled(v: ScanView, candidates: Seq<Vec<u64>>) -> ScanView
    decreases v.spans.len() - v.slot, v.idle(),
{
    if v.is_over() || v.waiting is Some {
        v
    } else {
        settled(v.fed(candidates[v.slot]@), candidates)
    }
}

/// Settling keeps a scan faithful to the candidates it is given.
pub proof fn settled_has_seen(
    v: ScanView,
    candidates: Seq<Vec<u64>>,
    d: spec_fn(int, int) -> bool,
)
    requires
        v.has_seen(|k: int| candidates[k]@, d),
        0 <= v.slot,
        v.page_size > 0,
    ensures
        settled(v, candidates).has_seen(|k: int| candidates[k]@, d),
    decreases v.spans.len() - v.slot, v.idle(),
{
    if !v.is_over() && v.waiting is None {
        let c = |k: int| candidates[k]@;
        fed_has_seen(v, c, d);
        assert(c(v.slot) == candidates[v.slot]@);
        settled_has_seen(v.fed(candidates[v.slot]@), candidates, d);
    }
}

/// Settling is part of the run that `run_to_end` describes: it does not change where the run ends.
pub proof fn settling_keeps_the_run(
    v: ScanView,
    candidates: Seq<Vec<u64>>,
    d: spec_fn(int, int) -> bool,
)
    ensures
        run_to_end(settled(v, candidates), |k: int| candidates[k]@, d) == run_to_end(
            v,
            |k: int| candidates[k]@,
            d,
        ),
    decreases v.spans.len() - v.slot, v.idle(),
{
    if !v.is_over() && v.waiting is None {
        let c = |k: int| candidates[k]@;
        assert(c(v.slot) == candidates[v.slot]@);
        settling_keeps_the_run(v.fed(candidates[v.slot]@), candidates, d);
    }
}

/// Whether a dirty log has a bit for every page of the slots that it is matched to.
pub open spec fn log_covers(
    log: Map<u32, Vec<u64>>,
    spans: Seq<SlotSpan>,
    page_size: int,
) -> bool {
    forall|order: Seq<u32>, k: int| #[trigger]
        lists_keys(order, log) && 0 <= k < spans.len() && k < order.len() ==> (
        #[trigger] spans[k]).len as int / page_size <= 64 * log[order[k]]@.len()
}

/// A walk over the pages in the hypervisor's dirty log, to find those that the guest wrote.
#[derive(Debug)]
pub struct KvmScan {
    /// The walk.
    pub scan: DirtyScan,
    /// The logged pages of each slot.
    pub candidates: Vec<Vec<u64>>,
}

impl KvmScan {
    /// The walk stands at a page that has to be read, or is over, and the logged pages cover every
    /// slot.
    pub open spec fn wf(self) -> bool {
        &&& self.scan.wf()
        &&& self.scan@.is_over() || self.scan@.waiting is Some
        &&& self.scan.failure is None ==> self.covers()
    }

    /// The logged pages cover every slot.
    pub open spec fn covers(self) -> bool {
        &&& self.candidates@.len() == self.scan.spans@.len()
        &&& forall|k: int|
            0 <= k < self.scan.spans@.len() ==> (#[trigger] self.scan.spans@[k]).len as int
                / self.scan.page_size as int <= 64 * self.candidates@[k]@.len()
    }

    /// Begins a walk. The page map is opened first, and the dirty log read once that is done; where
    /// either fails the walk is over at once.
    pub fn new(
        spans: Vec<SlotSpan>,
        page_size: usize,
        log: Result<Result<DirtyBitmap, VmError>, PagemapError>,
    ) -> (walk: KvmScan)
        requires
            page_size > 0,
            spans_fit(spans@),
            log matches Ok(Ok(log)) ==> log_covers(log@, spans@, page_size as int),
        ensures
            walk.wf(),
            match log {
                Err(e) => walk.scan@ == ScanView::start(spans@, page_size as int).failed(
                    VmmError::Pagemap(e),
                ),
                Ok(Err(e)) => walk.scan@ == ScanView::start(spans@, page_size as int).failed(
                    VmmError::Vm(e),
                ),
                Ok(Ok(log)) => {
                    &&& walk.scan@ == settled(
                        ScanView::start(spans@, page_size as int),
                        walk.candidates@,
                    )
                    &&& walk.candidates@.len() == spans@.len()
                    &&& exists|order: Seq<u32>| #[trigger] lists_keys(order, log@)
                    &&& forall|order: Seq<u32>, k: int| #[trigger]
                        lists_keys(order, log@) && 0 <= k < spans@.len() ==> (
                        #[trigger] walk.candidates@[k])@ == logged_candidates(
                            log@,
                            order,
                            spans@,
                            page_size as int,
                            k,
                        )
                },
            },
    {
        match log {
            Err(e) => {
                let scan = DirtyScan::new(spans, page_size, Err(e));
                KvmScan { scan, candidates: Vec::new() }
            },
            Ok(Err(e)) => {
                let mut scan = DirtyScan::new(spans, page_size, Ok(()));
                scan.failure = Some(VmmError::Vm(e));
                KvmScan { scan, candidates: Vec::new() }
            },
            Ok(Ok(log)) => {
                let candidates = kvm_candidates(&log, &spans, page_size);
                let scan = DirtyScan::new(spans, page_size, Ok(()));
                let mut walk = KvmScan { scan, candidates };
                assert(walk.covers()) by {
                    let order = choose|order: Seq<u32>| #[trigger] lists_keys(order, log@);
                    assert forall|k: int| 0 <= k < spans@.len() implies (
                    #[trigger] spans@[k]).len as int / page_size as int <= 64
                        * candidates@[k]@.len() by {
                        assert(candidates@[k]@ == logged_candidates(
                            log@,
                            order,
                            spans@,
                            page_size as int,
                            k,
                        ));
                    }
                }
                walk.settle();
                walk
            },
        }
    }

    /// Gives candidates to each slot whose turn comes, up to the first page that has to be read.
    fn settle(&mut self)
        requires
            old(self).scan.wf(),
            old(self).scan.failure is None,
            old(self).covers(),
        ensures
            final(self).wf(),
            final(self).scan@ == settled(old(self).scan@, old(self).candidates@),
            final(self).candidates == old(self).candidates,
    {
        let ghost before = *self;
        while self.scan.slot < self.scan.spans.len() && self.scan.candidates.is_none()
            invariant
                self.scan.wf(),
                self.scan.failure is None,
                self.covers(),
                self.candidates == before.candidates,
                settled(self.scan@, self.candidates@) == settled(before.scan@, before.candidates@),
            decreases self.scan.spans@.len() - self.scan.slot, self.scan@.idle(),
        {
            let words: Vec<u64> = self.candidates[self.scan.slot].clone();
            let ghost at = self.scan@;
            assert(words@ =~= self.candidates@[self.scan.slot as int]@);
            self.scan.supply_candidates(words);
            assert(self.scan@ == at.fed(self.candidates@[at.slot]@));
        }
    }

    /// What the walk needs next: a page to be read, or nothing more.
    pub fn step(&self) -> (step: ScanStep)
        requires
            self.wf(),
        ensures
            step == self.scan@.step(),
            !(step is Candidates),
    {
        self.scan.step()
    }

    /// Takes in whether the awaited page was written. A page that cannot be read counts as not
    /// written.
    pub fn supply_page(&mut self, outcome: Result<bool, PagemapError>)
        requires
            old(self).wf(),
            old(self).scan@.step() is ReadPage,
        ensures
            final(self).wf(),
            final(self).candidates == old(self).candidates,
            final(self).scan@ == settled(
                old(self).scan@.answered(outcome matches Ok(written) && written),
                old(self).candidates@,
            ),
    {
        let written = match outcome {
            Ok(written) => written,
            Err(_) => false,
        };
        self.scan.supply_page(written);
        self.settle();
    }
}

proof fn lemma_scanned_len(
    spans: Seq<SlotSpan>,
    page_size: int,
    c: spec_fn(int) -> Seq<u64>,
    d: spec_fn(int, int) -> bool,
    n: int,
)
    requires
        0 <= n <= spans.len(),
        page_size > 0,
    ensures
        scanned_bits(spans, page_size, c, d, n).len() == 64 * words_before(
            span_lens(spans),
            page_size,
            n,
        ),
    decreases n,
{
    if n > 0 {
        lemma_scanned_len(spans, page_size, c, d, n - 1);
        vstd::arithmetic::div_mod::lemma_div_pos_is_pos(spans[n - 1].len as int, page_size);
        assert(span_lens(spans)[n - 1] == spans[n - 1].len);
    }
}

/// A finished scan marks page `p` of slot `k` exactly where the page was a candidate and was
/// written: the bitmap is the intersection of the two.
pub proof fn scanned_bit_is_intersection(
    spans: Seq<SlotSpan>,
    page_size: int,
    c: spec_fn(int) -> Seq<u64>,
    d: spec_fn(int, int) -> bool,
    n: int,
    k: int,
    p: int,
)
    requires
        0 <= k < n <= spans.len(),
        page_size > 0,
        0 <= p < spans[k].len as int / page_size,
    ensures
        ({
            let at = 64 * words_before(span_lens(spans), page_size, k) + p;
            &&& 0 <= at < scanned_bits(spans, page_size, c, d, n).len()
            &&& scanned_bits(spans, page_size, c, d, n)[at] == (bit(c(k), p) && d(k, p))
        }),
    decreases n,
{
    let lens = span_lens(spans);
    lemma_scanned_len(spans, page_size, c, d, n);
    lemma_scanned_len(spans, page_size, c, d, n - 1);
    words_before_grow(lens, page_size, k, n - 1);
    if k < n - 1 {
        scanned_bit_is_intersection(spans, page_size, c, d, n - 1, k, p);
        vstd::arithmetic::div_mod::lemma_div_pos_is_pos(spans[n - 1].len as int, page_size);
    }
}

proof fn lemma_scanned_within_resident(
    spans: Seq<SlotSpan>,
    residency: Seq<Result<Vec<u64>, VmError>>,
    page_size: int,
    d: spec_fn(int, int) -> bool,
    n: int,
)
    requires
        0 <= n <= spans.len(),
        page_size > 0,
        forall|k: int|
            0 <= k < spans.len() ==> (#[trigger] residency[k])->Ok_0@.len() == words_for(
                spans[k].len as int / page_size,
            ),
    ensures
        ({
            let scanned = scanned_bits(spans, page_size, |k: int| residency[k]->Ok_0@, d, n);
            let resident = bits(resident_words(residency, n));
            &&& scanned.len() == resident.len()
            &&& forall|i: int| 0 <= i < scanned.len() && #[trigger] scanned[i] ==> resident[i]
        }),
    decreases n,
{
    let c = |k: int| residency[k]->Ok_0@;
    if n > 0 {
        lemma_scanned_within_resident(spans, residency, page_size, d, n - 1);
        let last = residency[n - 1]->Ok_0@;
        vstd::arithmetic::div_mod::lemma_div_pos_is_pos(spans[n - 1].len as int, page_size);
        assert(last.len() == words_for(spans[n - 1].len as int / page_size));
        bits_append(resident_words(residency, n - 1), last);
        let shorter = scanned_bits(spans, page_size, c, d, n - 1);
        let scanned = scanned_bits(spans, page_size, c, d, n);
        let resident = bits(resident_words(residency, n));
        assert forall|i: int| 0 <= i < scanned.len() && #[trigger] scanned[i] implies resident[i]
            by {
            if i < shorter.len() {
                assert(scanned[i] == shorter[i]);
            } else {
                let p = i - shorter.len();
                assert(scanned[i] == slot_scanned_bits(spans, page_size, c, d, n - 1)[p]);
                assert(bit(c(n - 1), p));
                assert(bits(last)[p] == bit(last, p));
            }
        }
    } else {
        assert(resident_words(residency, n).len() == 0);
    }
}

/// The dirty bitmap of a finished scan has the layout of the resident bitmap that
/// `guest_memory_info` reports from the same residency, and lies inside it: every dirty page is
/// resident. Each slot's residency bitmap has a word for every 64 pages and no more; longer ones
/// would be reported as they are, and only the dirty bitmap would keep to that length.
pub proof fn dirty_pages_are_resident(
    spans: Seq<SlotSpan>,
    residency: Seq<Result<Vec<u64>, VmError>>,
    page_size: int,
    d: spec_fn(int, int) -> bool,
    dirty: Seq<u64>,
)
    requires
        page_size > 0,
        forall|k: int|
            0 <= k < spans.len() ==> (#[trigger] residency[k])->Ok_0@.len() == words_for(
                spans[k].len as int / page_size,
            ),
        bits(dirty) == scanned_bits(
            spans,
            page_size,
            |k: int| residency[k]->Ok_0@,
            d,
            spans.len() as int,
        ),
    ensures
        dirty.len() == resident_words(residency, spans.len() as int).len(),
        forall|w: int|
            0 <= w < dirty.len() ==> #[trigger] dirty[w] & !resident_words(
                residency,
                spans.len() as int,
            )[w] == 0,
{
    let n = spans.len() as int;
    let resident = resident_words(residency, n);
    lemma_scanned_within_resident(spans, residency, page_size, d, n);
    assert(bits(dirty).len() == 64 * dirty.len() && bits(resident).len() == 64 * resident.len());
    assert forall|w: int| 0 <= w < dirty.len() implies #[trigger] dirty[w] & !resident[w] == 0 by {
        assert forall|i: u64| i < 64 && #[trigger] word_bit(dirty[w], i) implies word_bit(
            resident[w],
            i,
        ) by {
            let at = 64 * w + i;
            assert(at / 64 == w && at % 64 == i as int);
            assert(bits(dirty)[at]);
            assert(bits(resident)[at]);
        }
        word_within(dirty[w], resident[w]);
    }
}

proof fn lemma_resident_word(
    residency: Seq<Result<Vec<u64>, VmError>>,
    n: int,
    k: int,
    w: int,
)
    requires
        0 <= k < n,
        0 <= w < residency[k]->Ok_0@.len(),
    ensures
        resident_words(residency, k).len() + w < resident_words(residency, n).len(),
        resident_words(residency, n)[resident_words(residency, k).len() + w]
            == residency[k]->Ok_0@[w],
    decreases n,
{
    if k < n - 1 {
        lemma_resident_word(residency, n - 1, k, w);
    }
}

/// A page that a finished scan marks dirty is resident in the bitmap that `guest_memory_info`
/// reports from the same residency, whatever the length of the slots' residency bitmaps: page `p`
/// of slot `k` stands there behind the bitmaps of the slots before it.
pub proof fn dirty_page_is_resident(
    spans: Seq<SlotSpan>,
    residency: Seq<Result<Vec<u64>, VmError>>,
    page_size: int,
    d: spec_fn(int, int) -> bool,
    k: int,
    p: int,
)
    requires
        page_size > 0,
        0 <= k < spans.len(),
        0 <= p < spans[k].len as int / page_size <= 64 * residency[k]->Ok_0@.len(),
    ensures
        scanned_bits(
            spans,
            page_size,
            |k: int| residency[k]->Ok_0@,
            d,
            spans.len() as int,
        )[64 * words_before(span_lens(spans), page_size, k) + p] ==> bit(
            resident_words(residency, spans.len() as int),
            64 * resident_words(residency, k).len() + p,
        ),
{
    let c = |k: int| residency[k]->Ok_0@;
    let n = spans.len() as int;
    let at = 64 * resident_words(residency, k).len() + p;
    scanned_bit_is_intersection(spans, page_size, c, d, n, k, p);
    assert(c(k) == residency[k]->Ok_0@);
    lemma_resident_word(residency, n, k, p / 64);
    assert(at / 64 == resident_words(residency, k).len() + p / 64 && at % 64 == p % 64);
}

} // verus!
