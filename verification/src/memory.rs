//! Guest memory as the monitor sees it: mapped slots, cut into pages and blocks.

use crate::bitmap::{bit, bits, bits_append, padded_bits, set_bit, test_bit, words_for, zeroed};
use crate::error::{VmError, VmmError};
use crate::vmm::Vmm;
use vstd::arithmetic::div_mod::*;
use vstd::arithmetic::mul::*;
use vstd::prelude::*;
use vstd::slice::slice_subrange;

verus! {

/// A plugged slot of guest memory, as it is mapped into the monitor.
#[derive(Debug, Clone, Copy)]
pub struct MemSlot<'a> {
    /// Host virtual address of the first byte.
    pub base_addr: usize,
    /// The slot's bytes.
    pub bytes: &'a [u8],
}

/// The lengths of the slots, in bytes.
pub open spec fn slot_lens(slots: Seq<MemSlot<'_>>) -> Seq<int> {
    slots.map_values(|s: MemSlot<'_>| s.bytes@.len() as int)
}

/// Number of blocks of `block_size` bytes that the whole pages of `len` bytes hold.
pub open spec fn blocks_in(len: int, page_size: int, block_size: int) -> int {
    (len / page_size) * (page_size / block_size)
}

/// Bytes in the first `n` slots.
pub open spec fn bytes_before(lens: Seq<int>, n: int) -> int
    decreases n,
{
    if n <= 0 {
        0
    } else {
        bytes_before(lens, n - 1) + lens[n - 1]
    }
}

/// Blocks in the first `n` slots.
pub open spec fn blocks_before(lens: Seq<int>, page_size: int, block_size: int, n: int) -> int
    decreases n,
{
    if n <= 0 {
        0
    } else {
        blocks_before(lens, page_size, block_size, n - 1) + blocks_in(
            lens[n - 1],
            page_size,
            block_size,
        )
    }
}

/// Words that the bitmaps of the first `n` slots take, one bit for each `unit` bytes of a slot.
/// Each slot's bitmap starts on a word of its own.
pub open spec fn words_before(lens: Seq<int>, unit: int, n: int) -> int
    decreases n,
{
    if n <= 0 {
        0
    } else {
        words_before(lens, unit, n - 1) + words_for(lens[n - 1] / unit)
    }
}

/// The blocks of a slot's whole pages lie inside the slot.
pub proof fn blocks_fit(len: int, page_size: int, block_size: int)
    requires
        len >= 0,
        page_size > 0,
        block_size > 0,
    ensures
        0 <= blocks_in(len, page_size, block_size),
        blocks_in(len, page_size, block_size) * block_size <= len,
        blocks_in(len, page_size, block_size) <= len / block_size,
        blocks_in(len, page_size, block_size) <= len,
{
    let pages = len / page_size;
    let subs = page_size / block_size;
    lemma_div_pos_is_pos(len, page_size);
    lemma_div_pos_is_pos(page_size, block_size);
    lemma_mul_nonnegative(pages, subs);
    lemma_fundamental_div_mod(len, page_size);
    lemma_fundamental_div_mod(page_size, block_size);
    assert(pages * subs * block_size <= len) by (nonlinear_arith)
        requires
            0 <= pages,
            0 <= subs,
            block_size * subs <= page_size,
            page_size * pages <= len,
    ;
    assert(pages * subs <= len / block_size) by {
        lemma_div_is_ordered(pages * subs * block_size, len, block_size);
        lemma_div_by_multiple(pages * subs, block_size);
    }
    assert(pages * subs <= len) by (nonlinear_arith)
        requires
            0 <= pages * subs,
            pages * subs * block_size <= len,
            block_size > 0,
    ;
}

/// Block counts add up within the total length, and never shrink as slots are added.
pub proof fn blocks_before_bounds(lens: Seq<int>, page_size: int, block_size: int, m: int, n: int)
    requires
        0 <= m <= n <= lens.len(),
        page_size > 0,
        block_size > 0,
        forall|k: int| 0 <= k < lens.len() ==> lens[k] >= 0,
    ensures
        0 <= blocks_before(lens, page_size, block_size, m),
        blocks_before(lens, page_size, block_size, m) <= blocks_before(
            lens,
            page_size,
            block_size,
            n,
        ),
        blocks_before(lens, page_size, block_size, n) * block_size <= bytes_before(lens, n),
        blocks_before(lens, page_size, block_size, n) <= bytes_before(lens, n),
        bytes_before(lens, m) <= bytes_before(lens, n),
    decreases n,
{
    if n > 0 {
        blocks_fit(lens[n - 1], page_size, block_size);
        let a = blocks_before(lens, page_size, block_size, n - 1);
        let b = blocks_in(lens[n - 1], page_size, block_size);
        assert((a + b) * block_size == a * block_size + b * block_size) by (nonlinear_arith);
        if m < n {
            blocks_before_bounds(lens, page_size, block_size, m, n - 1);
        } else {
            blocks_before_bounds(lens, page_size, block_size, n - 1, n - 1);
        }
    }
}

/// Word counts never shrink as slots are added.
pub proof fn words_before_grow(lens: Seq<int>, unit: int, m: int, n: int)
    requires
        0 <= m <= n <= lens.len(),
        unit > 0,
        forall|k: int| 0 <= k < lens.len() ==> lens[k] >= 0,
    ensures
        0 <= words_before(lens, unit, m) <= words_before(lens, unit, n),
    decreases n,
{
    if n > 0 {
        lemma_div_pos_is_pos(lens[n - 1], unit);
        if m < n {
            words_before_grow(lens, unit, m, n - 1);
        } else {
            words_before_grow(lens, unit, n - 1, n - 1);
        }
    }
}

/// Where block `sub` of page `page` stands among a slot's blocks.
pub proof fn block_position(page: int, sub: int, subs: int, pages: int)
    requires
        0 <= page < pages,
        0 <= sub < subs,
    ensures
        0 <= page * subs + sub < pages * subs,
        page * subs + subs <= pages * subs,
        (page * subs + sub) / subs == page,
{
    lemma_fundamental_div_mod_converse(page * subs + sub, subs, page, sub);
    assert(page * subs + subs <= pages * subs) by (nonlinear_arith)
        requires
            page + 1 <= pages,
            subs > 0,
    ;
    assert(0 <= page * subs) by (nonlinear_arith)
        requires
            0 <= page,
            subs > 0,
    ;
}

/// Returns the size of guest memory, in MiB, from the lengths of its regions.
pub fn mem_size_mib(region_lens: &Vec<u64>) -> (mib: u64)
    requires
        bytes_before(
            region_lens@.map_values(|len: u64| len as int),
            region_lens@.len() as int,
        ) <= u64::MAX,
    ensures
        mib == bytes_before(
            region_lens@.map_values(|len: u64| len as int),
            region_lens@.len() as int,
        ) / 0x10_0000,
{
    let ghost lens = region_lens@.map_values(|len: u64| len as int);
    let mut total: u64 = 0;
    let mut i: usize = 0;
    while i < region_lens.len()
        invariant
            0 <= i <= region_lens@.len(),
            lens == region_lens@.map_values(|len: u64| len as int),
            total == bytes_before(lens, i as int),
            bytes_before(lens, lens.len() as int) <= u64::MAX,
        decreases region_lens@.len() - i,
    {
        proof {
            bytes_before_grow(lens, i + 1, lens.len() as int);
            assert(lens[i as int] == region_lens@[i as int]);
        }
        total = total + region_lens[i];
        i = i + 1;
    }
    assert(total >> 20 == total / 0x10_0000) by (bit_vector);
    total >> 20
}

/// Lengths add up without shrinking.
pub proof fn bytes_before_grow(lens: Seq<int>, m: int, n: int)
    requires
        0 <= m <= n <= lens.len(),
        forall|k: int| 0 <= k < lens.len() ==> lens[k] >= 0,
    ensures
        0 <= bytes_before(lens, m) <= bytes_before(lens, n),
    decreases n,
{
    if n > 0 {
        if m < n {
            bytes_before_grow(lens, m, n - 1);
        } else {
            bytes_before_grow(lens, n - 1, n - 1);
        }
    }
}

/// Where a slot of guest memory is mapped, and where its contents stand in a memory file.
#[derive(Debug, Clone, Copy, PartialEq, Eq)]
pub struct GuestRegionUffdMapping {
    /// Host virtual address of the first byte.
    pub base_host_virt_addr: u64,
    /// Length in bytes.
    pub size: usize,
    /// Offset of the contents in the memory file.
    pub offset: u64,
    /// Size of the pages that back the slot.
    pub page_size: usize,
    /// The same, under the name that older readers look for. It is in bytes too.
    pub page_size_kib: usize,
}

/// The mapping of slot `i`. Its contents stand behind those of the slots before it.
pub open spec fn mapping_of(
    slots: Seq<MemSlot<'_>>,
    page_size: usize,
    i: int,
) -> GuestRegionUffdMapping {
    GuestRegionUffdMapping {
        base_host_virt_addr: slots[i].base_addr as u64,
        size: slots[i].bytes@.len() as usize,
        offset: bytes_before(slot_lens(slots), i) as u64,
        page_size,
        page_size_kib: page_size,
    }
}

/// Whether a page of `page_size` bytes holds nothing but zeros.
pub open spec fn page_is_zero(bytes: Seq<u8>, page_size: int, page: int) -> bool {
    forall|i: int| page * page_size <= i < (page + 1) * page_size ==> #[trigger] bytes[i] == 0
}

/// The empty pages of slot `slot`: those that are resident and hold nothing but zeros.
pub open spec fn slot_empty_bits(
    slots: Seq<MemSlot<'_>>,
    residency: Seq<Result<Vec<u64>, VmError>>,
    page_size: int,
    slot: int,
) -> Seq<bool> {
    padded_bits(
        slots[slot].bytes@.len() as int / page_size,
        |p: int|
            bit(residency[slot]->Ok_0@, p) && page_is_zero(slots[slot].bytes@, page_size, p),
    )
}

/// The empty pages of the first `n` slots, their bitmaps laid end to end.
pub open spec fn empty_bits(
    slots: Seq<MemSlot<'_>>,
    residency: Seq<Result<Vec<u64>, VmError>>,
    page_size: int,
    n: int,
) -> Seq<bool>
    decreases n,
{
    if n <= 0 {
        Seq::empty()
    } else {
        empty_bits(slots, residency, page_size, n - 1) + slot_empty_bits(
            slots,
            residency,
            page_size,
            n - 1,
        )
    }
}

/// The residency bitmaps of the first `n` slots, laid end to end.
pub open spec fn resident_words(residency: Seq<Result<Vec<u64>, VmError>>, n: int) -> Seq<u64>
    decreases n,
{
    if n <= 0 {
        Seq::empty()
    } else {
        resident_words(residency, n - 1) + residency[n - 1]->Ok_0@
    }
}

/// The residency of the slots' pages as it was read, slot after slot, up to the first read that
/// failed. Each bitmap covers its slot.
pub open spec fn residency_read(
    slots: Seq<MemSlot<'_>>,
    residency: Seq<Result<Vec<u64>, VmError>>,
    page_size: int,
) -> bool {
    &&& residency.len() <= slots.len()
    &&& residency.len() < slots.len() ==> residency.len() > 0 && residency.last() is Err
    &&& forall|k: int| 0 <= k < residency.len() - 1 ==> #[trigger] residency[k] is Ok
    &&& forall|k: int|
        0 <= k < residency.len() && #[trigger] residency[k] is Ok
            ==> slots[k].bytes@.len() as int / page_size <= 64 * residency[k]->Ok_0@.len()
}

fn all_zero(bytes: &[u8]) -> (zero: bool)
    ensures
        zero == forall|i: int| 0 <= i < bytes@.len() ==> #[trigger] bytes@[i] == 0,
{
    let mut i: usize = 0;
    while i < bytes.len()
        invariant
            0 <= i <= bytes@.len(),
            forall|j: int| 0 <= j < i ==> #[trigger] bytes@[j] == 0,
        decreases bytes@.len() - i,
    {
        if bytes[i] != 0 {
            return false;
        }
        i = i + 1;
    }
    true
}

/// Finds the empty pages of one slot.
pub fn slot_empty_pages(bytes: &[u8], resident: &Vec<u64>, page_size: usize) -> (empty: Vec<u64>)
    requires
        page_size > 0,
        bytes@.len() as int / page_size as int <= 64 * resident@.len(),
    ensures
        bits(empty@) == padded_bits(
            bytes@.len() as int / page_size as int,
            |p: int| bit(resident@, p) && page_is_zero(bytes@, page_size as int, p),
        ),
{
    let pages: usize = bytes.len() / page_size;
    let mut empty = zeroed(pages);
    let ghost ps = page_size as int;
    let ghost expected = padded_bits(
        pages as int,
        |p: int| bit(resident@, p) && page_is_zero(bytes@, ps, p),
    );
    let mut p: usize = 0;
    while p < pages
        invariant
            0 <= p <= pages,
            page_size > 0,
            ps == page_size,
            pages == bytes@.len() as int / ps,
            pages <= 64 * resident@.len(),
            expected == padded_bits(
                pages as int,
                |p: int| bit(resident@, p) && page_is_zero(bytes@, ps, p),
            ),
            empty@.len() == words_for(pages as int),
            forall|i: int|
                0 <= i < 64 * empty@.len() ==> #[trigger] bits(empty@)[i] == (i < p
                    && expected[i]),
        decreases pages - p,
    {
        if test_bit(resident.as_slice(), p) {
            proof {
                assert(bytes@.len() == bytes.len());
                lemma_fundamental_div_mod(bytes@.len() as int, ps);
                assert(0 <= p * ps && (p + 1) * ps <= bytes@.len() && (p + 1) * ps == p * ps + ps)
                    by (nonlinear_arith)
                    requires
                        0 <= p,
                        p + 1 <= pages,
                        ps * pages <= bytes@.len(),
                        ps > 0,
                ;
            }
            let page = slice_subrange(bytes, p * page_size, p * page_size + page_size);
            let zero = all_zero(page);
            assert(zero == page_is_zero(bytes@, ps, p as int)) by {
                if zero {
                    assert forall|i: int| p * ps <= i < (p + 1) * ps implies #[trigger] bytes@[i]
                        == 0 by {
                        assert(page@[i - p * ps] == bytes@[i]);
                    }
                } else {
                    let j = choose|j: int| 0 <= j < page@.len() && #[trigger] page@[j] != 0;
                    assert(bytes@[p * ps + j] != 0);
                }
            }
            if zero {
                set_bit(&mut empty, p);
            }
        }
        p = p + 1;
    }
    assert(bits(empty@) =~= expected);
    empty
}

impl<'a> Vmm<'a> {
    /// Lists the mappings of guest memory. Their contents stand in the memory file one after the
    /// other, without gaps.
    pub fn guest_memory_mappings(&self, slots: &Vec<MemSlot<'_>>, page_size: usize) -> (mappings:
        Vec<GuestRegionUffdMapping>)
        requires
            bytes_before(slot_lens(slots@), slots@.len() as int) <= u64::MAX,
        ensures
            mappings@.len() == slots@.len(),
            forall|i: int|
                0 <= i < slots@.len() ==> #[trigger] mappings@[i] == mapping_of(
                    slots@,
                    page_size,
                    i,
                ),
    {
        let mut mappings: Vec<GuestRegionUffdMapping> = Vec::new();
        let mut offset: u64 = 0;
        let mut i: usize = 0;
        let ghost lens = slot_lens(slots@);
        while i < slots.len()
            invariant
                0 <= i <= slots@.len(),
                lens == slot_lens(slots@),
                bytes_before(lens, slots@.len() as int) <= u64::MAX,
                offset == bytes_before(lens, i as int),
                mappings@.len() == i,
                forall|j: int|
                    0 <= j < i ==> #[trigger] mappings@[j] == mapping_of(
                        slots@,
                        page_size,
                        j,
                    ),
            decreases slots@.len() - i,
        {
            let size: usize = slots[i].bytes.len();
            mappings.push(
                GuestRegionUffdMapping {
                    base_host_virt_addr: slots[i].base_addr as u64,
                    size,
                    offset,
                    page_size,
                    page_size_kib: page_size,
                },
            );
            proof {
                bytes_before_grow(lens, i + 1, lens.len() as int);
                assert(lens[i as int] == size);
            }
            offset = offset + size as u64;
            i = i + 1;
        }
        mappings
    }

    /// Reports which pages are resident, and which of those are empty. A residency read that failed
    /// is reported instead.
    pub fn guest_memory_info(
        &self,
        slots: &Vec<MemSlot<'_>>,
        residency: Vec<Result<Vec<u64>, VmError>>,
        page_size: usize,
    ) -> (res: Result<(Vec<u64>, Vec<u64>), VmmError>)
        requires
            page_size > 0,
            residency_read(slots@, residency@, page_size as int),
        ensures
            if residency@.len() > 0 && residency@.last() is Err {
                res == Err::<(Vec<u64>, Vec<u64>), VmmError>(
                    VmmError::Vm(residency@.last()->Err_0),
                )
            } else {
                &&& res matches Ok((resident, empty))
                &&& resident@ == resident_words(residency@, slots@.len() as int)
                &&& bits(empty@) == empty_bits(
                    slots@,
                    residency@,
                    page_size as int,
                    slots@.len() as int,
                )
            },
    {
        let mut resident: Vec<u64> = Vec::new();
        let mut empty: Vec<u64> = Vec::new();
        let mut s: usize = 0;
        assert(bits(empty@) =~= Seq::<bool>::empty());
        for outcome in iter: residency
            invariant
                iter.seq() == residency@,
                s == iter.index(),
                page_size > 0,
                residency_read(slots@, residency@, page_size as int),
                forall|k: int| 0 <= k < s ==> #[trigger] residency@[k] is Ok,
                resident@ == resident_words(residency@, s as int),
                bits(empty@) == empty_bits(slots@, residency@, page_size as int, s as int),
        {
            match outcome {
                Ok(words) => {
                    assert(residency@[s as int] is Ok);
                    let mut slot_empty = slot_empty_pages(slots[s].bytes, &words, page_size);
                    proof {
                        bits_append(empty@, slot_empty@);
                    }
                    let mut words = words;
                    resident.append(&mut words);
                    empty.append(&mut slot_empty);
                    assert(bits(empty@) =~= empty_bits(
                        slots@,
                        residency@,
                        page_size as int,
                        s + 1,
                    ));
                },
                Err(e) => {
                    assert(s == residency@.len() - 1) by {
                        if s < residency@.len() - 1 {
                            assert(residency@[s as int] is Ok);
                        }
                    }
                    return Err(VmmError::Vm(e));
                },
            }
            assert(slots@.len() == slots.len());
            s = s + 1;
        }
        Ok((resident, empty))
    }
}

proof fn lemma_memory_bits_len(
    slots: Seq<MemSlot<'_>>,
    residency: Seq<Result<Vec<u64>, VmError>>,
    page_size: int,
    n: int,
)
    requires
        0 <= n <= slots.len(),
        page_size > 0,
        forall|k: int|
            0 <= k < slots.len() ==> (#[trigger] residency[k])->Ok_0@.len() == words_for(
                slots[k].bytes@.len() as int / page_size,
            ),
    ensures
        empty_bits(slots, residency, page_size, n).len() == 64 * words_before(
            slot_lens(slots),
            page_size,
            n,
        ),
        resident_words(residency, n).len() == words_before(slot_lens(slots), page_size, n),
    decreases n,
{
    if n > 0 {
        lemma_memory_bits_len(slots, residency, page_size, n - 1);
        lemma_div_pos_is_pos(slots[n - 1].bytes@.len() as int, page_size);
        assert(slot_lens(slots)[n - 1] == slots[n - 1].bytes@.len());
        assert(residency[n - 1]->Ok_0@.len() == words_for(
            slots[n - 1].bytes@.len() as int / page_size,
        ));
    }
}

/// Page `p` of slot `k` has the same place in both bitmaps of `guest_memory_info`, and is empty
/// exactly where it is resident and holds nothing but zeros. An empty page is a resident one.
pub proof fn empty_pages_are_resident(
    slots: Seq<MemSlot<'_>>,
    residency: Seq<Result<Vec<u64>, VmError>>,
    page_size: int,
    n: int,
    k: int,
    p: int,
)
    requires
        0 <= k < n <= slots.len(),
        page_size > 0,
        forall|k: int|
            0 <= k < slots.len() ==> (#[trigger] residency[k])->Ok_0@.len() == words_for(
                slots[k].bytes@.len() as int / page_size,
            ),
        0 <= p < slots[k].bytes@.len() as int / page_size,
    ensures
        ({
            let at = 64 * words_before(slot_lens(slots), page_size, k) + p;
            &&& 0 <= at < empty_bits(slots, residency, page_size, n).len()
            &&& bit(resident_words(residency, n), at) == bit(residency[k]->Ok_0@, p)
            &&& empty_bits(slots, residency, page_size, n)[at] == (bit(
                resident_words(residency, n),
                at,
            ) && page_is_zero(slots[k].bytes@, page_size, p))
        }),
    decreases n,
{
    let lens = slot_lens(slots);
    let at = 64 * words_before(lens, page_size, k) + p;
    lemma_memory_bits_len(slots, residency, page_size, n);
    lemma_memory_bits_len(slots, residency, page_size, n - 1);
    words_before_grow(lens, page_size, k, n - 1);
    assert(residency[k]->Ok_0@.len() == words_for(slots[k].bytes@.len() as int / page_size));
    assert(lens[n - 1] == slots[n - 1].bytes@.len());
    lemma_div_pos_is_pos(lens[n - 1], page_size);
    let shorter = resident_words(residency, n - 1);
    let longer = resident_words(residency, n);
    if k < n - 1 {
        empty_pages_are_resident(slots, residency, page_size, n - 1, k, p);
        assert(at / 64 < shorter.len());
        assert(longer[at / 64] == shorter[at / 64]);
    } else {
        assert(at / 64 == shorter.len() + p / 64 && at % 64 == p % 64);
        assert(longer[at / 64] == residency[k]->Ok_0@[p / 64]);
    }
}

/// The mappings lie in the memory file one after the other: the first at its start, each next one
/// where the one before ends, the last ending at the size of guest memory.
pub proof fn mappings_are_contiguous(slots: Seq<MemSlot<'_>>, page_size: usize, i: int)
    requires
        0 <= i < slots.len(),
        bytes_before(slot_lens(slots), slots.len() as int) <= u64::MAX,
    ensures
        mapping_of(slots, page_size, 0).offset == 0,
        mapping_of(slots, page_size, i).offset + slots[i].bytes@.len() == bytes_before(
            slot_lens(slots),
            i + 1,
        ),
        i + 1 < slots.len() ==> mapping_of(slots, page_size, i + 1).offset == mapping_of(
            slots,
            page_size,
            i,
        ).offset + slots[i].bytes@.len(),
{
    let lens = slot_lens(slots);
    bytes_before_grow(lens, i, slots.len() as int);
    bytes_before_grow(lens, i + 1, slots.len() as int);
    assert(lens[i] == slots[i].bytes@.len());
}

} // verus!
