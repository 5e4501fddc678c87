//! Which blocks of guest memory changed since the last checkpoint.

use crate::bitmap::{
    bit, bits, bits_append, padded_bits, set_bit, set_count, set_count_append, test_bit, word_count,
    words_for, zeroed,
};
use crate::memory::{
    block_position, blocks_before, blocks_before_bounds, blocks_fit, blocks_in, slot_lens,
    words_before, words_before_grow, MemSlot,
};
use crate::outside::{block_hash, xxh3_of};
use vstd::prelude::*;
use vstd::slice::slice_subrange;

verus! {

/// Block `i` of `data`, in blocks of `block_size` bytes.
pub open spec fn block_at(data: Seq<u8>, block_size: int, i: int) -> Seq<u8> {
    data.subrange(i * block_size, (i + 1) * block_size)
}

/// The hashes of the whole blocks of `data`.
pub open spec fn hashes_of(data: Seq<u8>, block_size: int) -> Seq<u64> {
    Seq::new(
        (data.len() / block_size as nat) as nat,
        |i: int| xxh3_of(block_at(data, block_size, i)),
    )
}

/// The blocks of one slot's whole pages.
pub open spec fn slot_blocks(slot: MemSlot<'_>, page_size: int, block_size: int) -> Seq<Seq<u8>> {
    Seq::new(
        blocks_in(slot.bytes@.len() as int, page_size, block_size) as nat,
        |l: int| block_at(slot.bytes@, block_size, l),
    )
}

/// The blocks of the first `n` slots, slot after slot.
pub open spec fn guest_blocks(
    slots: Seq<MemSlot<'_>>,
    page_size: int,
    block_size: int,
    n: int,
) -> Seq<Seq<u8>>
    decreases n,
{
    if n <= 0 {
        Seq::empty()
    } else {
        guest_blocks(slots, page_size, block_size, n - 1) + slot_blocks(
            slots[n - 1],
            page_size,
            block_size,
        )
    }
}

/// For each block of the first `n` slots, its index inside its own slot.
pub open spec fn local_indices(
    slots: Seq<MemSlot<'_>>,
    page_size: int,
    block_size: int,
    n: int,
) -> Seq<int>
    decreases n,
{
    if n <= 0 {
        Seq::empty()
    } else {
        local_indices(slots, page_size, block_size, n - 1) + Seq::new(
            blocks_in(slots[n - 1].bytes@.len() as int, page_size, block_size) as nat,
            |l: int| l,
        )
    }
}

/// Whether page `page` of slot `slot` is set in `dirty`, the slots' page bitmaps laid end to end.
pub open spec fn page_dirty(
    slots: Seq<MemSlot<'_>>,
    dirty: Seq<u64>,
    page_size: int,
    slot: int,
    page: int,
) -> bool {
    bit(dirty, 64 * words_before(slot_lens(slots), page_size, slot) + page)
}

/// For each block of the first `n` slots, whether it lies in a dirty page.
pub open spec fn dirty_blocks(
    slots: Seq<MemSlot<'_>>,
    dirty: Seq<u64>,
    page_size: int,
    block_size: int,
    n: int,
) -> Seq<bool>
    decreases n,
{
    if n <= 0 {
        Seq::empty()
    } else {
        dirty_blocks(slots, dirty, page_size, block_size, n - 1) + Seq::new(
            blocks_in(slots[n - 1].bytes@.len() as int, page_size, block_size) as nat,
            |l: int| page_dirty(slots, dirty, page_size, n - 1, l / (page_size / block_size)),
        )
    }
}

/// The hash of every block that lies in a dirty page; `None` for the others.
pub open spec fn fresh_hashes(blocks: Seq<Seq<u8>>, dirty: Seq<bool>) -> Seq<Option<u64>> {
    Seq::new(
        blocks.len(),
        |g: int|
            if dirty[g] {
                Some(xxh3_of(blocks[g]))
            } else {
                None
            },
    )
}

/// The three sequences over the blocks have one entry for each block.
pub proof fn block_sequence_lens(
    slots: Seq<MemSlot<'_>>,
    dirty: Seq<u64>,
    page_size: int,
    block_size: int,
    n: int,
)
    requires
        0 <= n <= slots.len(),
        page_size > 0,
        block_size > 0,
    ensures
        guest_blocks(slots, page_size, block_size, n).len() == blocks_before(
            slot_lens(slots),
            page_size,
            block_size,
            n,
        ),
        local_indices(slots, page_size, block_size, n).len() == blocks_before(
            slot_lens(slots),
            page_size,
            block_size,
            n,
        ),
        dirty_blocks(slots, dirty, page_size, block_size, n).len() == blocks_before(
            slot_lens(slots),
            page_size,
            block_size,
            n,
        ),
    decreases n,
{
    if n > 0 {
        block_sequence_lens(slots, dirty, page_size, block_size, n - 1);
        blocks_fit(slots[n - 1].bytes@.len() as int, page_size, block_size);
    }
}

/// Hashes the whole blocks of `data`.
pub fn hash_blocks(data: &[u8], block_size: usize) -> (hashes: Vec<u64>)
    requires
        block_size > 0,
    ensures
        hashes@ == hashes_of(data@, block_size as int),
{
    let count: usize = data.len() / block_size;
    let mut hashes: Vec<u64> = Vec::with_capacity(count);
    let mut i: usize = 0;
    while i < count
        invariant
            0 <= i <= count,
            count == data@.len() / block_size as nat,
            block_size > 0,
            hashes@ == hashes_of(data@, block_size as int).take(i as int),
        decreases count - i,
    {
        proof {
            assert(data@.len() == data.len());
            vstd::arithmetic::div_mod::lemma_fundamental_div_mod(
                data@.len() as int,
                block_size as int,
            );
            assert(0 <= i * block_size && (i + 1) * block_size <= data@.len() && (i + 1)
                * block_size == i * block_size + block_size) by (nonlinear_arith)
                requires
                    i + 1 <= count,
                    block_size * count <= data@.len(),
                    block_size > 0,
            ;
        }
        let block = slice_subrange(data, i * block_size, i * block_size + block_size);
        hashes.push(block_hash(block));
        i = i + 1;
        assert(hashes@ =~= hashes_of(data@, block_size as int).take(i as int));
    }
    assert(hashes@ =~= hashes_of(data@, block_size as int));
    hashes
}

/// Hashes every block that lies in a dirty page. `dirty` holds the slots' page bitmaps laid end to
/// end, and each slot's pages are looked up in that slot's own words.
pub fn dirty_block_hashes(
    slots: &Vec<MemSlot<'_>>,
    dirty: &Vec<u64>,
    page_size: usize,
    block_size: usize,
) -> (fresh: Vec<Option<u64>>)
    requires
        page_size > 0,
        block_size > 0,
        dirty@.len() == words_before(slot_lens(slots@), page_size as int, slots@.len() as int),
    ensures
        fresh@ == fresh_hashes(
            guest_blocks(slots@, page_size as int, block_size as int, slots@.len() as int),
            dirty_blocks(slots@, dirty@, page_size as int, block_size as int, slots@.len() as int),
        ),
{
    let subs: usize = page_size / block_size;
    let mut fresh: Vec<Option<u64>> = Vec::new();
    let mut word_base: usize = 0;
    let mut s: usize = 0;
    let ghost ps = page_size as int;
    let ghost bs = block_size as int;
    let ghost lens = slot_lens(slots@);
    while s < slots.len()
        invariant
            0 <= s <= slots@.len(),
            page_size > 0,
            block_size > 0,
            subs == page_size / block_size,
            ps == page_size,
            bs == block_size,
            lens == slot_lens(slots@),
            dirty@.len() == words_before(lens, ps, slots@.len() as int),
            word_base == words_before(lens, ps, s as int),
            fresh@ == fresh_hashes(
                guest_blocks(slots@, ps, bs, s as int),
                dirty_blocks(slots@, dirty@, ps, bs, s as int),
            ),
        decreases slots@.len() - s,
    {
        let bytes: &[u8] = slots[s].bytes;
        let pages: usize = bytes.len() / page_size;
        let words: usize = word_count(pages);
        proof {
            words_before_grow(lens, ps, s + 1, slots@.len() as int);
            assert(dirty@.len() == dirty.len());
            assert(lens[s as int] == bytes@.len());
            blocks_fit(bytes@.len() as int, ps, bs);
        }
        let page_words = slice_subrange(dirty.as_slice(), word_base, word_base + words);
        let ghost before = fresh@;
        let ghost expected = fresh_hashes(
            guest_blocks(slots@, ps, bs, s + 1),
            dirty_blocks(slots@, dirty@, ps, bs, s + 1),
        );
        proof {
            block_sequence_lens(slots@, dirty@, ps, bs, s as int);
            block_sequence_lens(slots@, dirty@, ps, bs, s + 1);
            assert(before =~= expected.take(before.len() as int));
        }
        let mut p: usize = 0;
        while p < pages
            invariant
                0 <= p <= pages,
                s < slots@.len(),
                page_size > 0,
                block_size > 0,
                subs == page_size / block_size,
                ps == page_size,
                bs == block_size,
                bytes == slots@[s as int].bytes,
                pages == bytes@.len() / page_size as nat,
                words == words_for(pages as int),
                word_base == words_before(slot_lens(slots@), ps, s as int),
                word_base + words <= dirty@.len(),
                page_words@ == dirty@.subrange(word_base as int, word_base + words),
                blocks_in(bytes@.len() as int, ps, bs) == pages * subs,
                before.len() == blocks_before(slot_lens(slots@), ps, bs, s as int),
                expected == fresh_hashes(
                    guest_blocks(slots@, ps, bs, s + 1),
                    dirty_blocks(slots@, dirty@, ps, bs, s + 1),
                ),
                guest_blocks(slots@, ps, bs, s as int).len() == before.len(),
                dirty_blocks(slots@, dirty@, ps, bs, s as int).len() == before.len(),
                guest_blocks(slots@, ps, bs, s + 1).len() == before.len() + pages * subs,
                fresh@ == expected.take(before.len() + p * subs),
            decreases pages - p,
        {
            let dirty_page = test_bit(page_words, p);
            assert(dirty_page == page_dirty(slots@, dirty@, ps, s as int, p as int)) by {
                let g = 64 * word_base + p;
                assert(g / 64 == word_base + p as int / 64 && g % 64 == p as int % 64);
            }
            let mut q: usize = 0;
            while q < subs
                invariant
                    0 <= q <= subs,
                    p < pages,
                    s < slots@.len(),
                    page_size > 0,
                    block_size > 0,
                    subs == page_size / block_size,
                    ps == page_size,
                    bs == block_size,
                    bytes == slots@[s as int].bytes,
                    pages == bytes@.len() / page_size as nat,
                    blocks_in(bytes@.len() as int, ps, bs) == pages * subs,
                    dirty_page == page_dirty(slots@, dirty@, ps, s as int, p as int),
                    expected == fresh_hashes(
                        guest_blocks(slots@, ps, bs, s + 1),
                        dirty_blocks(slots@, dirty@, ps, bs, s + 1),
                    ),
                    guest_blocks(slots@, ps, bs, s as int).len() == before.len(),
                    dirty_blocks(slots@, dirty@, ps, bs, s as int).len() == before.len(),
                    guest_blocks(slots@, ps, bs, s + 1).len() == before.len() + pages * subs,
                    fresh@ == expected.take(before.len() + p * subs + q),
                decreases subs - q,
            {
                let ghost l = p * subs + q;
                let ghost n = pages * subs;
                proof {
                    assert(bytes@.len() == bytes.len());
                    block_position(p as int, q as int, subs as int, pages as int);
                    blocks_fit(bytes@.len() as int, ps, bs);
                    assert(0 <= l * bs && l <= l * bs && (l + 1) * bs <= bytes@.len() && (l + 1)
                        * bs == l * bs + bs && p * subs <= l) by (nonlinear_arith)
                        requires
                            0 <= p * subs,
                            l == p * subs + q,
                            l + 1 <= n,
                            n * bs <= bytes@.len(),
                            bs > 0,
                            q >= 0,
                    ;
                    assert(guest_blocks(slots@, ps, bs, s + 1)[before.len() + l] == block_at(
                        bytes@,
                        bs,
                        l,
                    ));
                    assert(dirty_blocks(slots@, dirty@, ps, bs, s + 1)[before.len() + l]
                        == dirty_page);
                }
                if dirty_page {
                    let offset: usize = (p * subs + q) * block_size;
                    let block = slice_subrange(bytes, offset, offset + block_size);
                    fresh.push(Some(block_hash(block)));
                } else {
                    fresh.push(None);
                }
                q = q + 1;
                assert(fresh@ =~= expected.take(before.len() + l + 1));
            }
            p = p + 1;
            assert(p * subs == (p - 1) * subs + subs) by (nonlinear_arith);
        }
        s = s + 1;
        word_base = word_base + words;
        assert(fresh@ =~= expected);
    }
    fresh
}

/// Whether block `g` has a fresh hash that differs from the stored one. Blocks past the end of the
/// stored hashes never count as changed.
pub open spec fn changed_at(stored: Seq<u64>, fresh: Seq<Option<u64>>, g: int) -> bool {
    g < stored.len() && fresh[g] is Some && fresh[g]->0 != stored[g]
}

/// The stored hashes after the fresh hashes of the first `n` blocks have been taken over.
pub open spec fn refreshed(stored: Seq<u64>, fresh: Seq<Option<u64>>, n: int) -> Seq<u64> {
    Seq::new(
        stored.len(),
        |g: int|
            if g < n && fresh[g] is Some {
                fresh[g]->0
            } else {
                stored[g]
            },
    )
}

/// The delta bitmap of slot `slot`: one bit for each block of the slot.
pub open spec fn slot_delta_bits(
    lens: Seq<int>,
    stored: Seq<u64>,
    fresh: Seq<Option<u64>>,
    page_size: int,
    block_size: int,
    slot: int,
) -> Seq<bool> {
    padded_bits(
        lens[slot] / block_size,
        |l: int|
            l < blocks_in(lens[slot], page_size, block_size) && changed_at(
                stored,
                fresh,
                blocks_before(lens, page_size, block_size, slot) + l,
            ),
    )
}

/// The delta bitmaps of the first `n` slots, laid end to end.
pub open spec fn delta_bits(
    lens: Seq<int>,
    stored: Seq<u64>,
    fresh: Seq<Option<u64>>,
    page_size: int,
    block_size: int,
    n: int,
) -> Seq<bool>
    decreases n,
{
    if n <= 0 {
        Seq::empty()
    } else {
        delta_bits(lens, stored, fresh, page_size, block_size, n - 1) + slot_delta_bits(
            lens,
            stored,
            fresh,
            page_size,
            block_size,
            n - 1,
        )
    }
}

/// Compares the fresh hashes with the stored ones, marks each changed block in the bitmap that
/// comes back, and takes the fresh hashes over into `stored`.
pub fn mark_changed(
    stored: &mut Vec<u64>,
    slots: &Vec<MemSlot<'_>>,
    fresh: &Vec<Option<u64>>,
    page_size: usize,
    block_size: usize,
) -> (delta: Vec<u64>)
    requires
        page_size > 0,
        block_size > 0,
        fresh@.len() == blocks_before(
            slot_lens(slots@),
            page_size as int,
            block_size as int,
            slots@.len() as int,
        ),
    ensures
        final(stored)@ == refreshed(old(stored)@, fresh@, fresh@.len() as int),
        bits(delta@) == delta_bits(
            slot_lens(slots@),
            old(stored)@,
            fresh@,
            page_size as int,
            block_size as int,
            slots@.len() as int,
        ),
{
    let subs: usize = page_size / block_size;
    let mut delta: Vec<u64> = Vec::new();
    let mut g: usize = 0;
    let mut s: usize = 0;
    let ghost ps = page_size as int;
    let ghost bs = block_size as int;
    let ghost lens = slot_lens(slots@);
    let ghost before = stored@;
    assert(stored@ =~= refreshed(before, fresh@, 0));
    assert(bits(delta@) =~= Seq::<bool>::empty());
    while s < slots.len()
        invariant
            0 <= s <= slots@.len(),
            page_size > 0,
            block_size > 0,
            subs == page_size / block_size,
            ps == page_size,
            bs == block_size,
            lens == slot_lens(slots@),
            fresh@.len() == blocks_before(lens, ps, bs, slots@.len() as int),
            g == blocks_before(lens, ps, bs, s as int),
            stored@ == refreshed(before, fresh@, g as int),
            bits(delta@) == delta_bits(lens, before, fresh@, ps, bs, s as int),
        decreases slots@.len() - s,
    {
        let len: usize = slots[s].bytes.len();
        proof {
            assert(lens[s as int] == len);
            blocks_fit(len as int, ps, bs);
            blocks_before_bounds(lens, ps, bs, s + 1, slots@.len() as int);
            assert(fresh@.len() == fresh.len());
        }
        let mut slot_delta = zeroed(len / block_size);
        let ghost base = g as int;
        let ghost expected = slot_delta_bits(lens, before, fresh@, ps, bs, s as int);
        let blocks: usize = (len / page_size) * subs;
        let mut l: usize = 0;
        while l < blocks
            invariant
                0 <= l <= blocks,
                block_size > 0,
                bs == block_size,
                s < slots@.len(),
                lens[s as int] == len,
                blocks == blocks_in(len as int, ps, bs),
                blocks <= len as int / bs,
                base == blocks_before(lens, ps, bs, s as int),
                base + blocks <= fresh@.len() <= usize::MAX,
                g == base + l,
                expected == slot_delta_bits(lens, before, fresh@, ps, bs, s as int),
                stored@ == refreshed(before, fresh@, g as int),
                slot_delta@.len() == words_for(len as int / bs),
                forall|i: int|
                    0 <= i < 64 * slot_delta@.len() ==> #[trigger] bits(slot_delta@)[i] == (i < l
                        && expected[i]),
            decreases blocks - l,
        {
            assert(l < 64 * words_for(len as int / bs));
            assert(expected[l as int] == changed_at(before, fresh@, g as int));
            if let Some(hash) = fresh[g] {
                if g < stored.len() && hash != stored[g] {
                    set_bit(&mut slot_delta, l);
                    stored.set(g, hash);
                }
            }
            g = g + 1;
            l = l + 1;
            assert(stored@ =~= refreshed(before, fresh@, g as int));
        }
        assert forall|i: int| 0 <= i < expected.len() && i >= blocks implies !expected[i] by {}
        assert(bits(slot_delta@) =~= expected);
        proof {
            bits_append(delta@, slot_delta@);
        }
        delta.append(&mut slot_delta);
        s = s + 1;
    }
    delta
}

pub(crate) proof fn lemma_delta_bit_at(
    lens: Seq<int>,
    stored: Seq<u64>,
    fresh: Seq<Option<u64>>,
    page_size: int,
    block_size: int,
    n: int,
    slot: int,
    l: int,
)
    requires
        0 <= slot < n <= lens.len(),
        block_size > 0,
        forall|k: int| 0 <= k < lens.len() ==> lens[k] >= 0,
        0 <= l < 64 * words_for(lens[slot] / block_size),
    ensures
        delta_bits(lens, stored, fresh, page_size, block_size, n).len() == 64 * words_before(
            lens,
            block_size,
            n,
        ),
        0 <= 64 * words_before(lens, block_size, slot) + l < 64 * words_before(lens, block_size, n),
        delta_bits(lens, stored, fresh, page_size, block_size, n)[64 * words_before(
            lens,
            block_size,
            slot,
        ) + l] == slot_delta_bits(lens, stored, fresh, page_size, block_size, slot)[l],
    decreases n,
{
    lemma_delta_len(lens, stored, fresh, page_size, block_size, n);
    lemma_delta_len(lens, stored, fresh, page_size, block_size, n - 1);
    words_before_grow(lens, block_size, slot, n - 1);
    if slot < n - 1 {
        lemma_delta_bit_at(lens, stored, fresh, page_size, block_size, n - 1, slot, l);
        vstd::arithmetic::div_mod::lemma_div_pos_is_pos(lens[n - 1], block_size);
    }
}

pub(crate) proof fn lemma_delta_len(
    lens: Seq<int>,
    stored: Seq<u64>,
    fresh: Seq<Option<u64>>,
    page_size: int,
    block_size: int,
    n: int,
)
    requires
        0 <= n <= lens.len(),
        block_size > 0,
        forall|k: int| 0 <= k < lens.len() ==> lens[k] >= 0,
    ensures
        delta_bits(lens, stored, fresh, page_size, block_size, n).len() == 64 * words_before(
            lens,
            block_size,
            n,
        ),
    decreases n,
{
    if n > 0 {
        lemma_delta_len(lens, stored, fresh, page_size, block_size, n - 1);
        vstd::arithmetic::div_mod::lemma_div_pos_is_pos(lens[n - 1], block_size);
    }
}

/// Block `l` of slot `slot` is marked in the delta exactly where its page is dirty and its hash is
/// not the stored one. Blocks past the end of the stored hashes are never marked.
pub proof fn delta_marks_changed_blocks(
    slots: Seq<MemSlot<'_>>,
    dirty: Seq<u64>,
    stored: Seq<u64>,
    page_size: int,
    block_size: int,
    slot: int,
    l: int,
)
    requires
        page_size > 0,
        block_size > 0,
        0 <= slot < slots.len(),
        0 <= l < blocks_in(slots[slot].bytes@.len() as int, page_size, block_size),
    ensures
        ({
            let lens = slot_lens(slots);
            let fresh = fresh_hashes(
                guest_blocks(slots, page_size, block_size, slots.len() as int),
                dirty_blocks(slots, dirty, page_size, block_size, slots.len() as int),
            );
            let g = blocks_before(lens, page_size, block_size, slot) + l;
            delta_bits(lens, stored, fresh, page_size, block_size, slots.len() as int)[64
                * words_before(lens, block_size, slot) + l] == (page_dirty(
                slots,
                dirty,
                page_size,
                slot,
                l / (page_size / block_size),
            ) && g < stored.len() && xxh3_of(block_at(slots[slot].bytes@, block_size, l))
                != stored[g])
        }),
{
    let lens = slot_lens(slots);
    let n = slots.len() as int;
    let fresh = fresh_hashes(
        guest_blocks(slots, page_size, block_size, n),
        dirty_blocks(slots, dirty, page_size, block_size, n),
    );
    assert(lens[slot] == slots[slot].bytes@.len());
    blocks_fit(lens[slot], page_size, block_size);
    lemma_delta_bit_at(lens, stored, fresh, page_size, block_size, n, slot, l);
    lemma_block_facts(slots, dirty, page_size, block_size, n, slot, l);
}

pub(crate) proof fn lemma_block_facts(
    slots: Seq<MemSlot<'_>>,
    dirty: Seq<u64>,
    page_size: int,
    block_size: int,
    n: int,
    slot: int,
    l: int,
)
    requires
        page_size > 0,
        block_size > 0,
        0 <= slot < n <= slots.len(),
        0 <= l < blocks_in(slots[slot].bytes@.len() as int, page_size, block_size),
    ensures
        ({
            let g = blocks_before(slot_lens(slots), page_size, block_size, slot) + l;
            &&& 0 <= g < guest_blocks(slots, page_size, block_size, n).len()
            &&& guest_blocks(slots, page_size, block_size, n)[g] == block_at(
                slots[slot].bytes@,
                block_size,
                l,
            )
            &&& dirty_blocks(slots, dirty, page_size, block_size, n)[g] == page_dirty(
                slots,
                dirty,
                page_size,
                slot,
                l / (page_size / block_size),
            )
        }),
    decreases n,
{
    let lens = slot_lens(slots);
    block_sequence_lens(slots, dirty, page_size, block_size, n);
    block_sequence_lens(slots, dirty, page_size, block_size, n - 1);
    blocks_before_bounds(lens, page_size, block_size, slot, n - 1);
    if slot < n - 1 {
        lemma_block_facts(slots, dirty, page_size, block_size, n - 1, slot, l);
        blocks_fit(slots[n - 1].bytes@.len() as int, page_size, block_size);
    }
}

proof fn lemma_no_change_no_marks(
    lens: Seq<int>,
    stored: Seq<u64>,
    fresh: Seq<Option<u64>>,
    page_size: int,
    block_size: int,
    n: int,
)
    requires
        0 <= n <= lens.len(),
        page_size > 0,
        block_size > 0,
        forall|k: int| 0 <= k < lens.len() ==> lens[k] >= 0,
        fresh.len() >= blocks_before(lens, page_size, block_size, n),
        forall|g: int| 0 <= g < fresh.len() ==> !changed_at(stored, fresh, g),
    ensures
        forall|i: int|
            0 <= i < delta_bits(lens, stored, fresh, page_size, block_size, n).len()
                ==> !#[trigger] delta_bits(lens, stored, fresh, page_size, block_size, n)[i],
    decreases n,
{
    if n > 0 {
        blocks_before_bounds(lens, page_size, block_size, n - 1, n);
        lemma_no_change_no_marks(lens, stored, fresh, page_size, block_size, n - 1);
        let shorter = delta_bits(lens, stored, fresh, page_size, block_size, n - 1);
        let longer = delta_bits(lens, stored, fresh, page_size, block_size, n);
        let first = blocks_before(lens, page_size, block_size, n - 1);
        assert forall|i: int| 0 <= i < longer.len() implies !#[trigger] longer[i] by {
            if i < shorter.len() {
                assert(longer[i] == shorter[i]);
            } else {
                assert(!changed_at(stored, fresh, first + (i - shorter.len())) || i - shorter.len()
                    >= blocks_in(lens[n - 1], page_size, block_size));
            }
        }
    }
}

/// A delta leaves nothing for the next one: where the next finds no page dirty that this one did
/// not, and every block in it as this one left it, it marks no block.
pub proof fn repeated_delta_is_empty(
    lens: Seq<int>,
    stored: Seq<u64>,
    fresh: Seq<Option<u64>>,
    again: Seq<Option<u64>>,
    page_size: int,
    block_size: int,
)
    requires
        page_size > 0,
        block_size > 0,
        forall|k: int| 0 <= k < lens.len() ==> lens[k] >= 0,
        fresh.len() == blocks_before(lens, page_size, block_size, lens.len() as int),
        again.len() == fresh.len(),
        forall|g: int| 0 <= g < again.len() && again[g] is Some ==> #[trigger] again[g] == fresh[g],
    ensures
        ({
            let next = delta_bits(
                lens,
                refreshed(stored, fresh, fresh.len() as int),
                again,
                page_size,
                block_size,
                lens.len() as int,
            );
            forall|i: int| 0 <= i < next.len() ==> !#[trigger] next[i]
        }),
{
    lemma_no_change_no_marks(
        lens,
        refreshed(stored, fresh, fresh.len() as int),
        again,
        page_size,
        block_size,
        lens.len() as int,
    );
}

/// Memory that still holds the golden image has no delta against the image's hashes, whatever pages
/// are dirty.
pub proof fn golden_memory_has_no_delta(
    slots: Seq<MemSlot<'_>>,
    dirty: Seq<u64>,
    golden: Seq<u8>,
    page_size: int,
    block_size: int,
)
    requires
        page_size > 0,
        block_size > 0,
        forall|g: int|
            0 <= g < guest_blocks(slots, page_size, block_size, slots.len() as int).len() && g
                < golden.len() as int / block_size ==> #[trigger] guest_blocks(
                slots,
                page_size,
                block_size,
                slots.len() as int,
            )[g] == block_at(golden, block_size, g),
    ensures
        ({
            let fresh = fresh_hashes(
                guest_blocks(slots, page_size, block_size, slots.len() as int),
                dirty_blocks(slots, dirty, page_size, block_size, slots.len() as int),
            );
            let delta = delta_bits(
                slot_lens(slots),
                hashes_of(golden, block_size),
                fresh,
                page_size,
                block_size,
                slots.len() as int,
            );
            forall|i: int| 0 <= i < delta.len() ==> !#[trigger] delta[i]
        }),
{
    let n = slots.len() as int;
    let blocks = guest_blocks(slots, page_size, block_size, n);
    let fresh = fresh_hashes(blocks, dirty_blocks(slots, dirty, page_size, block_size, n));
    block_sequence_lens(slots, dirty, page_size, block_size, n);
    assert forall|g: int| 0 <= g < fresh.len() implies !changed_at(
        hashes_of(golden, block_size),
        fresh,
        g,
    ) by {
        if g < golden.len() as int / block_size {
            assert(blocks[g] == block_at(golden, block_size, g));
        }
    }
    lemma_no_change_no_marks(
        slot_lens(slots),
        hashes_of(golden, block_size),
        fresh,
        page_size,
        block_size,
        n,
    );
}

/// How many of the first `n` blocks changed.
pub open spec fn changed_count(stored: Seq<u64>, fresh: Seq<Option<u64>>, n: int) -> int
    decreases n,
{
    if n <= 0 {
        0
    } else {
        changed_count(stored, fresh, n - 1) + if changed_at(stored, fresh, n - 1) {
            1int
        } else {
            0
        }
    }
}

/// Where block `g` of the first `n` slots stands in the delta bitmap.
pub open spec fn block_place(
    lens: Seq<int>,
    page_size: int,
    block_size: int,
    n: int,
    g: int,
) -> int
    decreases n,
{
    if n <= 0 {
        0
    } else if g >= blocks_before(lens, page_size, block_size, n - 1) {
        64 * words_before(lens, block_size, n - 1) + g - blocks_before(
            lens,
            page_size,
            block_size,
            n - 1,
        )
    } else {
        block_place(lens, page_size, block_size, n - 1, g)
    }
}

/// The bit at a block's place in the delta tells whether the block changed.
pub proof fn bit_at_place_is_change(
    lens: Seq<int>,
    stored: Seq<u64>,
    fresh: Seq<Option<u64>>,
    page_size: int,
    block_size: int,
    n: int,
    g: int,
)
    requires
        0 <= n <= lens.len(),
        page_size > 0,
        block_size > 0,
        forall|k: int| 0 <= k < lens.len() ==> lens[k] >= 0,
        0 <= g < blocks_before(lens, page_size, block_size, n),
    ensures
        ({
            let at = block_place(lens, page_size, block_size, n, g);
            let delta = delta_bits(lens, stored, fresh, page_size, block_size, n);
            &&& 0 <= at < delta.len()
            &&& delta[at] == changed_at(stored, fresh, g)
        }),
    decreases n,
{
    let first = blocks_before(lens, page_size, block_size, n - 1);
    blocks_fit(lens[n - 1], page_size, block_size);
    lemma_delta_len(lens, stored, fresh, page_size, block_size, n);
    lemma_delta_len(lens, stored, fresh, page_size, block_size, n - 1);
    words_before_grow(lens, block_size, n - 1, n - 1);
    if g < first {
        bit_at_place_is_change(lens, stored, fresh, page_size, block_size, n - 1, g);
    }
}

proof fn lemma_slot_count(
    lens: Seq<int>,
    stored: Seq<u64>,
    fresh: Seq<Option<u64>>,
    page_size: int,
    block_size: int,
    slot: int,
    m: int,
)
    requires
        0 <= slot < lens.len(),
        page_size > 0,
        block_size > 0,
        lens[slot] >= 0,
        0 <= blocks_before(lens, page_size, block_size, slot),
        0 <= m <= slot_delta_bits(lens, stored, fresh, page_size, block_size, slot).len(),
    ensures
        ({
            let first = blocks_before(lens, page_size, block_size, slot);
            let blocks = blocks_in(lens[slot], page_size, block_size);
            let upto = if m < blocks {
                m
            } else {
                blocks
            };
            set_count(
                slot_delta_bits(lens, stored, fresh, page_size, block_size, slot).take(m),
            ) == changed_count(stored, fresh, first + upto) - changed_count(stored, fresh, first)
        }),
    decreases m,
{
    blocks_fit(lens[slot], page_size, block_size);
    if m > 0 {
        let marks = slot_delta_bits(lens, stored, fresh, page_size, block_size, slot);
        lemma_slot_count(lens, stored, fresh, page_size, block_size, slot, m - 1);
        assert(marks.take(m).drop_last() =~= marks.take(m - 1));
        assert(marks.take(m).last() == marks[m - 1]);
    }
}

/// A delta marks as many bits as blocks changed.
pub proof fn marks_count_changes(
    lens: Seq<int>,
    stored: Seq<u64>,
    fresh: Seq<Option<u64>>,
    page_size: int,
    block_size: int,
    n: int,
)
    requires
        0 <= n <= lens.len(),
        page_size > 0,
        block_size > 0,
        forall|k: int| 0 <= k < lens.len() ==> lens[k] >= 0,
    ensures
        set_count(delta_bits(lens, stored, fresh, page_size, block_size, n)) == changed_count(
            stored,
            fresh,
            blocks_before(lens, page_size, block_size, n),
        ),
    decreases n,
{
    if n > 0 {
        let marks = slot_delta_bits(lens, stored, fresh, page_size, block_size, n - 1);
        marks_count_changes(lens, stored, fresh, page_size, block_size, n - 1);
        set_count_append(delta_bits(lens, stored, fresh, page_size, block_size, n - 1), marks);
        blocks_before_bounds(lens, page_size, block_size, n - 1, n - 1);
        blocks_fit(lens[n - 1], page_size, block_size);
        lemma_slot_count(
            lens,
            stored,
            fresh,
            page_size,
            block_size,
            n - 1,
            marks.len() as int,
        );
        assert(marks.take(marks.len() as int) =~= marks);
    }
}

} // verus!
