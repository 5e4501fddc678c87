//! Guest memory: its size, where it is mapped, and which of its pages are resident or empty.

use crate::bitmap::{bit, bits, words_for};
use crate::error::VmError;
use crate::laws::checkpoints::byte_lens;
use crate::laws::{bitmap_words, bitmaps_begin_at_totals, running_totals};
use crate::memory::{
    blocks_before, blocks_in, bytes_before, bytes_before_grow, empty_bits, mapping_of,
    page_is_zero, resident_words, slot_lens, words_before, words_before_grow,
    GuestRegionUffdMapping, MemSlot,
};
use vstd::prelude::*;

verus! {

/// The bytes before a slot are the running total of the lengths of the slots before it.
pub proof fn bytes_before_are_totals(lens: Seq<int>, totals: Seq<int>, n: int)
    requires
        running_totals(totals, lens),
        0 <= n <= lens.len(),
    ensures
        bytes_before(lens, n) == totals[n],
    decreases n,
{
    if n > 0 {
        bytes_before_are_totals(lens, totals, n - 1);
        assert(lens[n - 1] == lens[n - 1]);
    }
}

/// The size of guest memory in MiB is the number of whole MiB in the sum of its regions' lengths.
pub proof fn size_counts_whole_mib(region_lens: Seq<u64>, totals: Seq<int>, mib: int)
    requires
        running_totals(totals, Seq::new(region_lens.len(), |k: int| region_lens[k] as int)),
        mib == bytes_before(
            region_lens.map_values(|len: u64| len as int),
            region_lens.len() as int,
        ) / 0x10_0000,
    ensures
        mib * 1048576 <= totals[region_lens.len() as int] < (mib + 1) * 1048576,
{
    let lens = region_lens.map_values(|len: u64| len as int);
    assert(lens =~= Seq::new(region_lens.len(), |k: int| region_lens[k] as int));
    bytes_before_are_totals(lens, totals, region_lens.len() as int);
}

/// A page's blocks follow those of the pages before it, and a slot's those of the slots before it.
pub proof fn block_numbers_add_up(
    lens: Seq<int>,
    page_size: int,
    block_size: int,
    totals: Seq<int>,
    n: int,
)
    requires
        running_totals(
            totals,
            Seq::new(lens.len(), |k: int| (lens[k] / page_size) * (page_size / block_size)),
        ),
        0 <= n <= lens.len(),
    ensures
        blocks_before(lens, page_size, block_size, n) == totals[n],
    decreases n,
{
    if n > 0 {
        block_numbers_add_up(lens, page_size, block_size, totals, n - 1);
        let parts = Seq::new(
            lens.len(),
            |k: int| (lens[k] / page_size) * (page_size / block_size),
        );
        assert(parts[n - 1] == blocks_in(lens[n - 1], page_size, block_size));
    }
}

/// Each mapping covers exactly the host bytes of its slot: it begins at the slot's host address, as
/// a number, and is as long as the slot. Its contents stand in the memory file behind those of all
/// slots before it, so that a byte's host address and its place in the file differ by the same
/// amount all over the slot, and no two slots share a place.
pub proof fn mappings_cover_their_slots(
    slots: Seq<MemSlot<'_>>,
    page_size: usize,
    mappings: Seq<GuestRegionUffdMapping>,
    totals: Seq<int>,
    i: int,
)
    requires
        mappings.len() == slots.len(),
        forall|k: int|
            0 <= k < slots.len() ==> #[trigger] mappings[k] == mapping_of(slots, page_size, k),
        totals[slots.len() as int] <= u64::MAX,
        forall|k: int| 0 <= k < slots.len() ==> (#[trigger] slots[k]).bytes@.len() <= usize::MAX,
        running_totals(totals, byte_lens(slots)),
        0 <= i < slots.len(),
    ensures
        mappings[i].base_host_virt_addr as int == slots[i].base_addr as int,
        mappings[i].size as int == slots[i].bytes@.len(),
        mappings[i].offset as int == totals[i],
        mappings[i].offset + mappings[i].size == totals[i + 1],
        mappings[i].page_size == page_size,
        mappings[i].page_size_kib == page_size,
{
    let lens = slot_lens(slots);
    assert(lens =~= byte_lens(slots));
    bytes_before_are_totals(lens, totals, i);
    bytes_before_are_totals(lens, totals, i + 1);
    bytes_before_are_totals(lens, totals, slots.len() as int);
    bytes_before_grow(lens, i, slots.len() as int);
    assert(byte_lens(slots)[i] == slots[i].bytes@.len());
    assert(slots[i].bytes@.len() <= usize::MAX);
    assert(mappings[i] == mapping_of(slots, page_size, i));
}

/// A page is zero where every one of its bytes is.
pub proof fn zero_page_has_zero_bytes(bytes: Seq<u8>, page_size: int, page: int)
    requires
        page_size > 0,
        0 <= page,
        (page + 1) * page_size <= bytes.len(),
    ensures
        page_is_zero(bytes, page_size, page) <==> bytes.subrange(
            page * page_size,
            (page + 1) * page_size,
        ) == Seq::new(page_size as nat, |j: int| 0u8),
{
    let start = page * page_size;
    assert(start >= 0 && (page + 1) * page_size == start + page_size) by (nonlinear_arith)
        requires
            page >= 0,
            page_size > 0,
            start == page * page_size,
    ;
    let cut = bytes.subrange(start, start + page_size);
    let zeros = Seq::new(page_size as nat, |j: int| 0u8);
    if page_is_zero(bytes, page_size, page) {
        assert forall|j: int| 0 <= j < page_size implies #[trigger] cut[j] == zeros[j] by {
            assert(bytes[start + j] == 0);
        }
        assert(cut =~= zeros);
    }
    if cut == zeros {
        assert forall|i: int| start <= i < start + page_size implies #[trigger] bytes[i] == 0 by {
            assert(cut[i - start] == zeros[i - start]);
        }
    }
}

/// How many words the residency of each slot was read as.
pub open spec fn residency_lens(residency: Seq<Result<Vec<u64>, VmError>>) -> Seq<int> {
    Seq::new(residency.len(), |k: int| residency[k]->Ok_0@.len() as int)
}

/// The resident bitmap is the slots' residency words one behind the other.
pub proof fn residency_is_reported_as_read(
    residency: Seq<Result<Vec<u64>, VmError>>,
    totals: Seq<int>,
    n: int,
    k: int,
    w: int,
)
    requires
        running_totals(totals, residency_lens(residency)),
        0 <= k < n <= residency.len(),
        0 <= w < residency[k]->Ok_0@.len(),
    ensures
        resident_words(residency, n).len() == totals[n],
        0 <= totals[k] + w < totals[n],
        resident_words(residency, n)[totals[k] + w] == residency[k]->Ok_0@[w],
    decreases n,
{
    lemma_resident_total(residency, totals, n);
    lemma_resident_total(residency, totals, n - 1);
    lemma_resident_total(residency, totals, k);
    assert(residency_lens(residency)[n - 1] == residency[n - 1]->Ok_0@.len());
    if k < n - 1 {
        residency_is_reported_as_read(residency, totals, n - 1, k, w);
    }
}

proof fn lemma_resident_total(
    residency: Seq<Result<Vec<u64>, VmError>>,
    totals: Seq<int>,
    n: int,
)
    requires
        running_totals(totals, residency_lens(residency)),
        0 <= n <= residency.len(),
    ensures
        resident_words(residency, n).len() == totals[n],
    decreases n,
{
    if n > 0 {
        lemma_resident_total(residency, totals, n - 1);
        assert(residency_lens(residency)[n - 1] == residency[n - 1]->Ok_0@.len());
    }
}

proof fn lemma_empty_at(
    slots: Seq<MemSlot<'_>>,
    residency: Seq<Result<Vec<u64>, VmError>>,
    page_size: int,
    n: int,
    k: int,
    p: int,
)
    requires
        page_size > 0,
        0 <= k < n <= slots.len(),
        0 <= p < 64 * words_for(slots[k].bytes@.len() as int / page_size),
    ensures
        empty_bits(slots, residency, page_size, n).len() == 64 * words_before(
            slot_lens(slots),
            page_size,
            n,
        ),
        0 <= 64 * words_before(slot_lens(slots), page_size, k) + p < 64 * words_before(
            slot_lens(slots),
            page_size,
            n,
        ),
        empty_bits(slots, residency, page_size, n)[64 * words_before(
            slot_lens(slots),
            page_size,
            k,
        ) + p] == (p < slots[k].bytes@.len() as int / page_size && bit(residency[k]->Ok_0@, p)
            && page_is_zero(slots[k].bytes@, page_size, p)),
    decreases n,
{
    let lens = slot_lens(slots);
    lemma_empty_total(slots, residency, page_size, n);
    lemma_empty_total(slots, residency, page_size, n - 1);
    words_before_grow(lens, page_size, k, n - 1);
    vstd::arithmetic::div_mod::lemma_div_pos_is_pos(slots[n - 1].bytes@.len() as int, page_size);
    assert(lens[n - 1] == slots[n - 1].bytes@.len());
    if k < n - 1 {
        lemma_empty_at(slots, residency, page_size, n - 1, k, p);
    }
}

proof fn lemma_empty_total(
    slots: Seq<MemSlot<'_>>,
    residency: Seq<Result<Vec<u64>, VmError>>,
    page_size: int,
    n: int,
)
    requires
        page_size > 0,
        0 <= n <= slots.len(),
    ensures
        empty_bits(slots, residency, page_size, n).len() == 64 * words_before(
            slot_lens(slots),
            page_size,
            n,
        ),
    decreases n,
{
    if n > 0 {
        lemma_empty_total(slots, residency, page_size, n - 1);
        vstd::arithmetic::div_mod::lemma_div_pos_is_pos(
            slots[n - 1].bytes@.len() as int,
            page_size,
        );
        assert(slot_lens(slots)[n - 1] == slots[n - 1].bytes@.len());
    }
}

/// The empty bitmap has page `p` of slot `k` set exactly where bit `p` of the slot's residency is
/// set and every byte of the page is zero. The slots' bitmaps stand one behind the other, each on
/// words of its own, and the bits behind a slot's last page are clear.
pub proof fn empty_marks_resident_zero_pages(
    slots: Seq<MemSlot<'_>>,
    residency: Seq<Result<Vec<u64>, VmError>>,
    page_size: int,
    empty: Seq<u64>,
    totals: Seq<int>,
    k: int,
    p: int,
)
    requires
        page_size > 0,
        bits(empty) == empty_bits(slots, residency, page_size, slots.len() as int),
        running_totals(totals, bitmap_words(byte_lens(slots), page_size)),
        0 <= k < slots.len(),
        0 <= p < 64 * ((slots[k].bytes@.len() as int / page_size + 63) / 64),
    ensures
        empty.len() == totals[slots.len() as int],
        0 <= totals[k] + p / 64 < empty.len(),
        empty[totals[k] + p / 64] & (1u64 << ((p % 64) as u64)) != 0 <==> {
            &&& p < slots[k].bytes@.len() as int / page_size
            &&& residency[k]->Ok_0@[p / 64] & (1u64 << ((p % 64) as u64)) != 0
            &&& slots[k].bytes@.subrange(p * page_size, (p + 1) * page_size) == Seq::new(
                page_size as nat,
                |j: int| 0u8,
            )
        },
{
    let n = slots.len() as int;
    let lens = slot_lens(slots);
    assert(lens =~= byte_lens(slots));
    lemma_empty_at(slots, residency, page_size, n, k, p);
    bitmaps_begin_at_totals(lens, page_size, totals, k);
    bitmaps_begin_at_totals(lens, page_size, totals, n);
    let at = 64 * totals[k] + p;
    assert(bits(empty)[at] == bit(empty, at));
    assert(at / 64 == totals[k] + p / 64 && at % 64 == p % 64);
    let len = slots[k].bytes@.len() as int;
    if p < len / page_size {
        vstd::arithmetic::div_mod::lemma_fundamental_div_mod(len, page_size);
        let pages = len / page_size;
        assert((p + 1) * page_size <= len) by (nonlinear_arith)
            requires
                p + 1 <= pages,
                page_size * pages <= len,
                page_size > 0,
        ;
        zero_page_has_zero_bytes(slots[k].bytes@, page_size, p);
    }
}

} // verus!
