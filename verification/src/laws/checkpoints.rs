//! Checkpoints: which blocks a delta marks and carries, what its bytes are, and what is kept for
//! the next one.

use crate::bitmap::{bit, bits};
use crate::checkpoint::{capped, DirtyDeltaPacked};
use crate::delta::{
    block_sequence_lens, changed_at, changed_count, delta_bits, dirty_blocks, guest_blocks,
    hashes_of, lemma_block_facts, lemma_delta_bit_at, lemma_delta_len, local_indices, refreshed,
};
use crate::laws::{bitmap_words, bitmaps_begin_at_totals, running_totals};
use crate::memory::{blocks_before, blocks_fit, blocks_in, slot_lens, MemSlot};
use crate::outside::{lz4_frame_content, xxh3_of};
use crate::pack::{
    blocks_view, le32, low32, packed, packed_header, packed_table, xored, DeltaInput,
};
use crate::vmm::Vmm;
use vstd::prelude::*;

verus! {

/// The length of each slot, in bytes.
pub open spec fn byte_lens(slots: Seq<MemSlot<'_>>) -> Seq<int> {
    Seq::new(slots.len(), |s: int| slots[s].bytes@.len() as int)
}

/// How many blocks the whole pages of each slot hold.
pub open spec fn block_counts(
    slots: Seq<MemSlot<'_>>,
    page_size: int,
    block_size: int,
) -> Seq<int> {
    Seq::new(
        slots.len(),
        |s: int| (slots[s].bytes@.len() as int / page_size) * (page_size / block_size),
    )
}

/// The bytes of block `l` of slot `s`.
pub open spec fn slot_block(
    slots: Seq<MemSlot<'_>>,
    block_size: int,
    s: int,
    l: int,
) -> Seq<u8> {
    slots[s].bytes@.subrange(l * block_size, (l + 1) * block_size)
}

/// The running totals of block counts are where the slots' blocks begin.
pub proof fn blocks_begin_at_totals(
    slots: Seq<MemSlot<'_>>,
    page_size: int,
    block_size: int,
    firsts: Seq<int>,
    n: int,
)
    requires
        0 <= n <= slots.len(),
        page_size > 0,
        block_size > 0,
        running_totals(firsts, block_counts(slots, page_size, block_size)),
    ensures
        blocks_before(slot_lens(slots), page_size, block_size, n) == firsts[n],
        0 <= firsts[n],
    decreases n,
{
    if n > 0 {
        blocks_begin_at_totals(slots, page_size, block_size, firsts, n - 1);
        assert(block_counts(slots, page_size, block_size)[n - 1] == blocks_in(
            slots[n - 1].bytes@.len() as int,
            page_size,
            block_size,
        ));
        assert(slot_lens(slots)[n - 1] == slots[n - 1].bytes@.len());
        blocks_fit(slots[n - 1].bytes@.len() as int, page_size, block_size);
    }
}

/// A block's hash is that of its bytes: an image has one stored hash for each whole block.
pub proof fn image_hashes_are_of_its_blocks(image: Seq<u8>, block_size: int, i: int)
    requires
        block_size > 0,
        0 <= i,
        (i + 1) * block_size <= image.len(),
    ensures
        i < hashes_of(image, block_size).len(),
        hashes_of(image, block_size)[i] == xxh3_of(
            image.subrange(i * block_size, (i + 1) * block_size),
        ),
        hashes_of(image, block_size).len() * block_size <= image.len() < (hashes_of(
            image,
            block_size,
        ).len() + 1) * block_size,
{
    let len = image.len() as int;
    vstd::arithmetic::div_mod::lemma_fundamental_div_mod(len, block_size);
    let q = len / block_size;
    let r = len % block_size;
    assert(i < q && q * block_size <= len && len < (q + 1) * block_size) by (nonlinear_arith)
        requires
            len == block_size * q + r,
            0 <= r < block_size,
            (i + 1) * block_size <= len,
            block_size > 0,
    ;
}

/// A delta marks block `l` of slot `s` exactly where the block's page is set in the dirty bitmap
/// and the hash of the block's bytes is not the one stored for it. Page `p` of a slot is bit
/// `p % 64` of word `p / 64` of the slot's own dirty words, block `l` likewise of its own delta
/// words, and its hash stands behind those of all blocks of the slots before. Bits behind the last
/// block are clear.
pub proof fn delta_marks_blocks_with_new_hashes<'a>(
    before: Vmm<'a>,
    after: Vmm<'a>,
    slots: Seq<MemSlot<'_>>,
    dirty: Seq<u64>,
    page_size: int,
    delta: Seq<u64>,
    page_words: Seq<int>,
    block_words: Seq<int>,
    firsts: Seq<int>,
    s: int,
    l: int,
)
    requires
        before.host_page_size > 0,
        page_size > 0,
        before.deltas_to(after, slots, dirty, page_size, delta),
        running_totals(page_words, bitmap_words(byte_lens(slots), page_size)),
        running_totals(block_words, bitmap_words(byte_lens(slots), before.host_page_size as int)),
        running_totals(firsts, block_counts(slots, page_size, before.host_page_size as int)),
        0 <= s < slots.len(),
        0 <= l < 64 * ((slots[s].bytes@.len() as int / before.host_page_size as int + 63) / 64),
    ensures
        ({
            let bs = before.host_page_size as int;
            let p = l / (page_size / bs);
            &&& delta.len() == block_words[slots.len() as int]
            &&& 0 <= block_words[s] + l / 64 < delta.len()
            &&& delta[block_words[s] + l / 64] & (1u64 << ((l % 64) as u64)) != 0 <==> {
                &&& l < block_counts(slots, page_size, bs)[s]
                &&& dirty[page_words[s] + p / 64] & (1u64 << ((p % 64) as u64)) != 0
                &&& firsts[s] + l < before.delta_hashes@.len()
                &&& xxh3_of(slot_block(slots, bs, s, l)) != before.delta_hashes@[firsts[s] + l]
            }
        }),
{
    let bs = before.host_page_size as int;
    let lens = slot_lens(slots);
    let n = slots.len() as int;
    let fresh = crate::checkpoint::slot_hashes(slots, dirty, page_size, bs);
    let stored = before.delta_hashes@;
    assert(lens =~= byte_lens(slots));
    assert(lens[s] == slots[s].bytes@.len());
    bitmaps_begin_at_totals(lens, page_size, page_words, s);
    bitmaps_begin_at_totals(lens, bs, block_words, s);
    bitmaps_begin_at_totals(lens, bs, block_words, n);
    blocks_begin_at_totals(slots, page_size, bs, firsts, s);
    lemma_delta_bit_at(lens, stored, fresh, page_size, bs, n, s, l);
    lemma_delta_len(lens, stored, fresh, page_size, bs, n);
    let at = 64 * block_words[s] + l;
    assert(bits(delta)[at] == bit(delta, at));
    assert(at / 64 == block_words[s] + l / 64 && at % 64 == l % 64);
    if l < block_counts(slots, page_size, bs)[s] {
        lemma_block_facts(slots, dirty, page_size, bs, n, s, l);
        blocks_fit(lens[s], page_size, bs);
        let p = l / (page_size / bs);
        let from = 64 * page_words[s] + p;
        lemma_page_of_block(lens[s], page_size, bs, l);
        assert(from / 64 == page_words[s] + p / 64 && from % 64 == p % 64);
    }
}

proof fn lemma_page_of_block(len: int, page_size: int, block_size: int, l: int)
    requires
        page_size > 0,
        block_size > 0,
        len >= 0,
        0 <= l < (len / page_size) * (page_size / block_size),
    ensures
        0 <= l / (page_size / block_size) < len / page_size,
{
    let subs = page_size / block_size;
    let pages = len / page_size;
    vstd::arithmetic::div_mod::lemma_div_pos_is_pos(page_size, block_size);
    vstd::arithmetic::div_mod::lemma_div_pos_is_pos(len, page_size);
    assert(subs > 0) by (nonlinear_arith)
        requires
            subs >= 0,
            0 < pages * subs,
    ;
    vstd::arithmetic::div_mod::lemma_fundamental_div_mod(l, subs);
    let q = l / subs;
    let r = l % subs;
    assert(0 <= q < pages) by (nonlinear_arith)
        requires
            l == subs * q + r,
            0 <= r < subs,
            0 <= l < pages * subs,
    ;
}

/// Guest memory block by block, slot after slot.
pub struct FlatGuest {
    /// The bytes of each block.
    pub blocks: Seq<Seq<u8>>,
    /// Whether each block lies in a dirty page.
    pub dirty: Seq<bool>,
    /// The index of each block inside its slot.
    pub local: Seq<int>,
}

/// Whether `flat` shows the slots with the pages in `dirty`. `page_words` tells where each slot's
/// dirty words begin and `firsts` which block is its first.
pub open spec fn shows(
    flat: FlatGuest,
    slots: Seq<MemSlot<'_>>,
    dirty: Seq<u64>,
    page_size: int,
    block_size: int,
    page_words: Seq<int>,
    firsts: Seq<int>,
) -> bool {
    &&& running_totals(page_words, bitmap_words(byte_lens(slots), page_size))
    &&& running_totals(firsts, block_counts(slots, page_size, block_size))
    &&& flat.blocks.len() == firsts[slots.len() as int]
    &&& flat.dirty.len() == flat.blocks.len()
    &&& flat.local.len() == flat.blocks.len()
    &&& forall|s: int, l: int|
        0 <= s < slots.len() && 0 <= l < block_counts(slots, page_size, block_size)[s] ==> {
            let p = l / (page_size / block_size);
            &&& flat.blocks[firsts[s] + l] == #[trigger] slot_block(slots, block_size, s, l)
            &&& flat.dirty[firsts[s] + l] == (dirty[page_words[s] + p / 64] & (1u64 << ((p
                % 64) as u64)) != 0)
            &&& flat.local[firsts[s] + l] == l
        }
}

/// The blocks of the first `n` slots, which of them lie in dirty pages and their indices are what a
/// flat picture of the slots shows.
pub proof fn blocks_are_as_shown(
    flat: FlatGuest,
    slots: Seq<MemSlot<'_>>,
    dirty: Seq<u64>,
    page_size: int,
    block_size: int,
    page_words: Seq<int>,
    firsts: Seq<int>,
    n: int,
)
    requires
        0 <= n <= slots.len(),
        page_size > 0,
        block_size > 0,
        shows(flat, slots, dirty, page_size, block_size, page_words, firsts),
    ensures
        0 <= firsts[n] <= flat.blocks.len(),
        guest_blocks(slots, page_size, block_size, n) == flat.blocks.take(firsts[n]),
        dirty_blocks(slots, dirty, page_size, block_size, n) == flat.dirty.take(firsts[n]),
        local_indices(slots, page_size, block_size, n) == flat.local.take(firsts[n]),
    decreases n,
{
    let lens = slot_lens(slots);
    assert(lens =~= byte_lens(slots));
    blocks_begin_at_totals(slots, page_size, block_size, firsts, n);
    blocks_begin_at_totals(slots, page_size, block_size, firsts, slots.len() as int);
    crate::memory::blocks_before_bounds(lens, page_size, block_size, n, slots.len() as int);
    block_sequence_lens(slots, dirty, page_size, block_size, n);
    if n > 0 {
        blocks_are_as_shown(flat, slots, dirty, page_size, block_size, page_words, firsts, n - 1);
        block_sequence_lens(slots, dirty, page_size, block_size, n - 1);
        blocks_begin_at_totals(slots, page_size, block_size, firsts, n - 1);
        bitmaps_begin_at_totals(lens, page_size, page_words, n - 1);
        let first = firsts[n - 1];
        let count = block_counts(slots, page_size, block_size)[n - 1];
        blocks_fit(lens[n - 1], page_size, block_size);
        let blocks = guest_blocks(slots, page_size, block_size, n);
        let marks = dirty_blocks(slots, dirty, page_size, block_size, n);
        let local = local_indices(slots, page_size, block_size, n);
        assert forall|g: int|
            #![trigger blocks[g]]
            #![trigger marks[g]]
            #![trigger local[g]]
            0 <= g < firsts[n] implies blocks[g] == flat.blocks[g] && marks[g] == flat.dirty[g]
            && local[g] == flat.local[g] by {
            if g < first {
                assert(guest_blocks(slots, page_size, block_size, n - 1)[g] == flat.blocks.take(
                    first,
                )[g]);
                assert(dirty_blocks(slots, dirty, page_size, block_size, n - 1)[g]
                    == flat.dirty.take(first)[g]);
                assert(local_indices(slots, page_size, block_size, n - 1)[g] == flat.local.take(
                    first,
                )[g]);
            } else {
                let l = g - first;
                let p = l / (page_size / block_size);
                let from = 64 * page_words[n - 1] + p;
                assert(slot_block(slots, block_size, n - 1, l) == flat.blocks[first + l]);
                lemma_page_of_block(lens[n - 1], page_size, block_size, l);
                assert(from / 64 == page_words[n - 1] + p / 64 && from % 64 == p % 64);
            }
        }
        assert(blocks =~= flat.blocks.take(firsts[n]));
        assert(marks =~= flat.dirty.take(firsts[n]));
        assert(local =~= flat.local.take(firsts[n]));
    } else {
        assert(guest_blocks(slots, page_size, block_size, 0) =~= flat.blocks.take(0));
        assert(dirty_blocks(slots, dirty, page_size, block_size, 0) =~= flat.dirty.take(0));
        assert(local_indices(slots, page_size, block_size, 0) =~= flat.local.take(0));
    }
}

/// After a delta the stored hash of every block in a dirty page is that of the block's bytes, and
/// every other stored hash is what it was. Blocks that never had a hash get none.
pub open spec fn hashes_follow(
    flat: FlatGuest,
    before: Seq<u64>,
    after: Seq<u64>,
) -> bool {
    &&& after.len() == before.len()
    &&& forall|g: int|
        0 <= g < before.len() ==> #[trigger] after[g] == if g < flat.blocks.len() && flat.dirty[g] {
            xxh3_of(flat.blocks[g])
        } else {
            before[g]
        }
}

/// Every block in a dirty page has the hash of its bytes, the others have none, and taking the
/// hashes over stores exactly those.
pub proof fn dirty_blocks_are_hashed(
    flat: FlatGuest,
    slots: Seq<MemSlot<'_>>,
    dirty: Seq<u64>,
    page_size: int,
    block_size: int,
    page_words: Seq<int>,
    firsts: Seq<int>,
    stored: Seq<u64>,
)
    requires
        page_size > 0,
        block_size > 0,
        shows(flat, slots, dirty, page_size, block_size, page_words, firsts),
    ensures
        ({
            let fresh = crate::checkpoint::slot_hashes(slots, dirty, page_size, block_size);
            &&& fresh.len() == flat.blocks.len()
            &&& forall|g: int|
                0 <= g < fresh.len() ==> #[trigger] fresh[g] == if flat.dirty[g] {
                    Some(xxh3_of(flat.blocks[g]))
                } else {
                    None
                }
            &&& hashes_follow(flat, stored, refreshed(stored, fresh, fresh.len() as int))
        }),
{
    let n = slots.len() as int;
    blocks_are_as_shown(flat, slots, dirty, page_size, block_size, page_words, firsts, n);
    assert(flat.blocks.take(firsts[n]) =~= flat.blocks);
    assert(flat.dirty.take(firsts[n]) =~= flat.dirty);
}

/// A delta stores the hash of every block in a dirty page and changes nothing else of the monitor.
pub proof fn delta_stores_hashes_and_nothing_else<'a>(
    before: Vmm<'a>,
    after: Vmm<'a>,
    slots: Seq<MemSlot<'_>>,
    dirty: Seq<u64>,
    page_size: int,
    delta: Seq<u64>,
    flat: FlatGuest,
    page_words: Seq<int>,
    firsts: Seq<int>,
)
    requires
        before.host_page_size > 0,
        page_size > 0,
        before.deltas_to(after, slots, dirty, page_size, delta),
        shows(
            flat,
            slots,
            dirty,
            page_size,
            before.host_page_size as int,
            page_words,
            firsts,
        ),
    ensures
        hashes_follow(flat, before.delta_hashes@, after.delta_hashes@),
        after.prev_checkpoint_blocks == before.prev_checkpoint_blocks,
        after.golden_base == before.golden_base,
        after.host_page_size == before.host_page_size,
        after.page_size == before.page_size,
        after.instance_info == before.instance_info,
        after.shutdown_exit_code == before.shutdown_exit_code,
        after.vcpus_handles == before.vcpus_handles,
        after.vcpus_exit_evt == before.vcpus_exit_evt,
{
    dirty_blocks_are_hashed(
        flat,
        slots,
        dirty,
        page_size,
        before.host_page_size as int,
        page_words,
        firsts,
        before.delta_hashes@,
    );
}

/// Whether `list` lists, in order, the blocks of which `holds` is true.
pub open spec fn lists(list: Seq<int>, holds: spec_fn(int) -> bool) -> bool {
    &&& forall|i: int, j: int| 0 <= i < j < list.len() ==> list[i] < list[j]
    &&& forall|g: int| #[trigger] list.contains(g) <==> holds(g)
}

proof fn lemma_lists_once(a: Seq<int>, b: Seq<int>, holds: spec_fn(int) -> bool)
    requires
        lists(a, holds),
        lists(b, holds),
    ensures
        a == b,
    decreases a.len(),
{
    if a.len() == 0 {
        if b.len() > 0 {
            assert(b.contains(b[0]));
            assert(a.contains(b[0]));
        }
        assert(a =~= b);
    } else {
        assert(a.contains(a.last()));
        assert(b.contains(a.last()));
        let i = choose|i: int| 0 <= i < b.len() && b[i] == a.last();
        assert(b.contains(b.last()));
        assert(a.contains(b.last()));
        let j = choose|j: int| 0 <= j < a.len() && a[j] == b.last();
        assert(a.last() == b.last());
        let top = a.last();
        let less = |g: int| holds(g) && g != top;
        assert forall|g: int| #[trigger] a.drop_last().contains(g) <==> less(g) by {
            if a.drop_last().contains(g) {
                let x = choose|x: int| 0 <= x < a.len() - 1 && a[x] == g;
                assert(a.contains(g));
            }
            if less(g) {
                assert(a.contains(g));
                let x = choose|x: int| 0 <= x < a.len() && a[x] == g;
                assert(a.drop_last()[x] == g);
            }
        }
        assert forall|g: int| #[trigger] b.drop_last().contains(g) <==> less(g) by {
            if b.drop_last().contains(g) {
                let x = choose|x: int| 0 <= x < b.len() - 1 && b[x] == g;
                assert(b.contains(g));
            }
            if less(g) {
                assert(b.contains(g));
                let x = choose|x: int| 0 <= x < b.len() && b[x] == g;
                assert(b.drop_last()[x] == g);
            }
        }
        lemma_lists_once(a.drop_last(), b.drop_last(), less);
        assert(a =~= a.drop_last().push(top));
        assert(b =~= b.drop_last().push(top));
    }
}

spec fn changed_list(input: DeltaInput, n: int) -> Seq<int>
    decreases n,
{
    if n <= 0 {
        Seq::empty()
    } else if input.changed(n - 1) {
        changed_list(input, n - 1).push(n - 1)
    } else {
        changed_list(input, n - 1)
    }
}

proof fn lemma_changed_list(input: DeltaInput, n: int)
    requires
        0 <= n,
    ensures
        lists(changed_list(input, n), |g: int| 0 <= g < n && input.changed(g)),
        changed_list(input, n).len() == changed_count(input.stored, input.fresh, n),
    decreases n,
{
    if n > 0 {
        lemma_changed_list(input, n - 1);
        let shorter = changed_list(input, n - 1);
        let longer = changed_list(input, n);
        let held = |g: int| 0 <= g < n - 1 && input.changed(g);
        assert forall|i: int| 0 <= i < shorter.len() implies #[trigger] shorter[i] < n - 1 by {
            assert(shorter.contains(shorter[i]));
            assert(held(shorter[i]));
        }
        assert(input.changed(n - 1) == changed_at(input.stored, input.fresh, n - 1));
        assert forall|g: int| #[trigger]
            longer.contains(g) <==> (0 <= g < n && input.changed(g)) by {
            assert(shorter.contains(g) <==> held(g));
            if input.changed(n - 1) {
                assert(longer[longer.len() - 1] == n - 1);
                if shorter.contains(g) {
                    let i = choose|i: int| 0 <= i < shorter.len() && shorter[i] == g;
                    assert(longer[i] == g);
                }
                if longer.contains(g) {
                    let i = choose|i: int| 0 <= i < longer.len() && longer[i] == g;
                    if i < shorter.len() {
                        assert(shorter[i] == g);
                    }
                }
            }
        }
    }
}

/// Whether block `g` changed since the last checkpoint: it lies in a dirty page, and the hash of
/// its bytes is not the one stored for it.
pub open spec fn block_changed(flat: FlatGuest, stored: Seq<u64>, g: int) -> bool {
    0 <= g < flat.blocks.len() && flat.dirty[g] && g < stored.len() && xxh3_of(flat.blocks[g])
        != stored[g]
}

/// What block `g` is told against: its bytes at the last checkpoint where they were kept, the
/// golden image's bytes at its place otherwise.
pub open spec fn block_base(vmm: Vmm<'_>, g: int) -> Seq<u8> {
    let size = vmm.host_page_size as int;
    if vmm.prev_checkpoint_blocks@.contains_key((g % 0x1_0000_0000) as u32) {
        vmm.prev_checkpoint_blocks@[(g % 0x1_0000_0000) as u32]@
    } else {
        vmm.golden_base->0@.subrange(g * size, (g + 1) * size)
    }
}

proof fn lemma_input_is_flat(
    before: Vmm<'_>,
    slots: Seq<MemSlot<'_>>,
    dirty: Seq<u64>,
    page_size: int,
    flat: FlatGuest,
    page_words: Seq<int>,
    firsts: Seq<int>,
)
    requires
        before.wf(),
        before.golden_base is Some,
        page_size > 0,
        shows(
            flat,
            slots,
            dirty,
            page_size,
            before.host_page_size as int,
            page_words,
            firsts,
        ),
    ensures
        ({
            let input = before.delta_input(slots, dirty, page_size);
            &&& input.wf()
            &&& input.blocks == flat.blocks
            &&& input.local == flat.local
            &&& input.fresh.len() == flat.blocks.len()
            &&& forall|g: int|
                0 <= g < flat.blocks.len() ==> #[trigger] input.changed(g) == block_changed(
                    flat,
                    before.delta_hashes@,
                    g,
                )
            &&& forall|g: int| #[trigger] input.base(g) == block_base(before, g)
        }),
{
    let bs = before.host_page_size as int;
    let n = slots.len() as int;
    let input = before.delta_input(slots, dirty, page_size);
    blocks_are_as_shown(flat, slots, dirty, page_size, bs, page_words, firsts, n);
    dirty_blocks_are_hashed(
        flat,
        slots,
        dirty,
        page_size,
        bs,
        page_words,
        firsts,
        before.delta_hashes@,
    );
    assert(flat.blocks.take(firsts[n]) =~= flat.blocks);
    assert(flat.local.take(firsts[n]) =~= flat.local);
    block_sequence_lens(slots, dirty, page_size, bs, n);
    crate::pack::delta_input_wf(
        slots,
        input.fresh,
        before.delta_hashes@,
        before.prev_checkpoint_blocks@,
        before.golden_base->0@,
        page_size,
        bs,
    );
}

/// A packed delta stores the hash of every block in a dirty page, and is a P-frame exactly where a
/// block of the last checkpoint was kept. Of the monitor only stored hashes and kept blocks change.
pub proof fn packed_delta_stores_hashes<'a>(
    before: Vmm<'a>,
    after: Vmm<'a>,
    slots: Seq<MemSlot<'_>>,
    dirty: Seq<u64>,
    page_size: int,
    delta: DirtyDeltaPacked,
    flat: FlatGuest,
    page_words: Seq<int>,
    firsts: Seq<int>,
)
    requires
        before.wf(),
        before.golden_base is Some,
        page_size > 0,
        before.packs_to(after, slots, dirty, page_size, delta),
        shows(
            flat,
            slots,
            dirty,
            page_size,
            before.host_page_size as int,
            page_words,
            firsts,
        ),
    ensures
        hashes_follow(flat, before.delta_hashes@, after.delta_hashes@),
        delta.is_p_frame <==> exists|k: u32| before.prev_checkpoint_blocks@.contains_key(k),
        after.golden_base == before.golden_base,
        after.host_page_size == before.host_page_size,
        after.page_size == before.page_size,
        after.instance_info == before.instance_info,
        after.shutdown_exit_code == before.shutdown_exit_code,
        after.vcpus_handles == before.vcpus_handles,
        after.vcpus_exit_evt == before.vcpus_exit_evt,
{
    dirty_blocks_are_hashed(
        flat,
        slots,
        dirty,
        page_size,
        before.host_page_size as int,
        page_words,
        firsts,
        before.delta_hashes@,
    );
    let prev = before.prev_checkpoint_blocks@;
    assert(blocks_view(prev).dom() =~= prev.dom());
    if prev.len() == 0 {
        assert(prev.dom() =~= Set::<u32>::empty());
    } else {
        let k = prev.dom().choose();
        assert(prev.contains_key(k));
    }
}

/// Where no more than 4096 blocks changed, the blocks kept after a packed delta are, key by key,
/// exactly the changed blocks as they stand in memory. Where more changed, none is kept.
pub proof fn changed_blocks_are_kept<'a>(
    before: Vmm<'a>,
    after: Vmm<'a>,
    slots: Seq<MemSlot<'_>>,
    dirty: Seq<u64>,
    page_size: int,
    delta: DirtyDeltaPacked,
    flat: FlatGuest,
    page_words: Seq<int>,
    firsts: Seq<int>,
    changed: Seq<int>,
    k: u32,
)
    requires
        before.wf(),
        before.golden_base is Some,
        page_size > 0,
        before.packs_to(after, slots, dirty, page_size, delta),
        shows(
            flat,
            slots,
            dirty,
            page_size,
            before.host_page_size as int,
            page_words,
            firsts,
        ),
        flat.blocks.len() <= 0x1_0000_0000,
        lists(changed, |g: int| block_changed(flat, before.delta_hashes@, g)),
    ensures
        after.prev_checkpoint_blocks@.contains_key(k) <==> changed.len() <= 4096
            && block_changed(flat, before.delta_hashes@, k as int),
        after.prev_checkpoint_blocks@.contains_key(k) ==> after.prev_checkpoint_blocks@[k]@
            == flat.blocks[k as int],
{
    let input = before.delta_input(slots, dirty, page_size);
    let n = flat.blocks.len() as int;
    let holds = |g: int| block_changed(flat, before.delta_hashes@, g);
    lemma_input_is_flat(before, slots, dirty, page_size, flat, page_words, firsts);
    lemma_changed_list(input, n);
    let own = changed_list(input, n);
    assert forall|g: int| #[trigger] own.contains(g) <==> holds(g) by {
        assert((|g: int| 0 <= g < n && input.changed(g))(g) <==> 0 <= g < n && input.changed(g));
    }
    lemma_lists_once(changed, own, holds);
    input.kept_is_exact(n);
    input.kept_count(n);
    let kept = input.kept(n);
    if kept.contains_key(k) {
        lemma_kept_domain(input, n, k);
    }
    assert(blocks_view(after.prev_checkpoint_blocks@) == capped(kept));
    assert(blocks_view(after.prev_checkpoint_blocks@).contains_key(k)
        == after.prev_checkpoint_blocks@.contains_key(k));
    if (k as int) < n {
        assert(input.key(k as int) == k);
    }
}

proof fn lemma_kept_domain(input: DeltaInput, n: int, k: u32)
    requires
        0 <= n <= input.blocks.len() <= 0x1_0000_0000,
        input.kept(n).contains_key(k),
    ensures
        (k as int) < n,
    decreases n,
{
    if n > 0 {
        if !(input.changed(n - 1) && input.key(n - 1) == k) {
            lemma_kept_domain(input, n - 1, k);
        }
    }
}

/// Four bytes of `bytes` from `at` on, taken as one number, low byte first.
pub open spec fn number_at(bytes: Seq<u8>, at: int) -> int {
    bytes[at] + 0x100 * bytes[at + 1] + 0x1_0000 * bytes[at + 2] + 0x100_0000 * bytes[at + 3]
}

proof fn lemma_four_bytes(x: u32)
    ensures
        le32(x).len() == 4,
        number_at(le32(x), 0) == x,
{
}

#[verifier::spinoff_prover]
#[verifier::rlimit(30)]
proof fn lemma_header(block_size: u32, count: u32)
    ensures
        ({
            let header = packed_header(block_size, count);
            &&& header.len() == 20
            &&& header[0] == 70 && header[1] == 67 && header[2] == 66 && header[3] == 75
            &&& header[4] == 1 && header[5] == 0
            &&& number_at(header, 6) == block_size
            &&& number_at(header, 10) == count
            &&& forall|i: int| 14 <= i < 20 ==> #[trigger] header[i] == 0
        }),
{
    let header = packed_header(block_size, count);
    let size_bytes = le32(block_size);
    let count_bytes = le32(count);
    lemma_four_bytes(block_size);
    lemma_four_bytes(count);
    assert(header[6] == size_bytes[0] && header[7] == size_bytes[1]);
    assert(header[8] == size_bytes[2] && header[9] == size_bytes[3]);
    assert(header[10] == count_bytes[0] && header[11] == count_bytes[1]);
    assert(header[12] == count_bytes[2] && header[13] == count_bytes[3]);
    assert(number_at(header, 6) == number_at(size_bytes, 0));
    assert(number_at(header, 10) == number_at(count_bytes, 0));
}

proof fn lemma_table_entry(indices: Seq<u32>, i: int)
    requires
        0 <= i < indices.len(),
    ensures
        packed_table(indices).len() == 4 * indices.len(),
        number_at(packed_table(indices), 4 * i) == indices[i],
{
    let table = packed_table(indices);
    assert((4 * i) / 4 == i && (4 * i) % 4 == 0);
    assert((4 * i + 1) / 4 == i && (4 * i + 1) % 4 == 1);
    assert((4 * i + 2) / 4 == i && (4 * i + 2) % 4 == 2);
    assert((4 * i + 3) / 4 == i && (4 * i + 3) % 4 == 3);
    assert(table[4 * i] == le32(indices[i])[0]);
    assert(table[4 * i + 1] == le32(indices[i])[1]);
    assert(table[4 * i + 2] == le32(indices[i])[2]);
    assert(table[4 * i + 3] == le32(indices[i])[3]);
}

proof fn lemma_blob_parts(block_size: u32, indices: Seq<u32>, data: Seq<u8>)
    ensures
        ({
            let blob = packed(block_size, indices, data);
            let header = packed_header(block_size, low32(indices.len() as int));
            let table = packed_table(indices);
            let count = indices.len() as int;
            &&& blob.len() == 20 + 4 * count + data.len()
            &&& forall|i: int| 0 <= i < 20 ==> #[trigger] blob[i] == header[i]
            &&& forall|i: int| 0 <= i < 4 * count ==> blob[20 + i] == #[trigger] table[i]
            &&& forall|j: int|
                0 <= j < data.len() ==> blob[20 + 4 * count + j] == #[trigger] data[j]
        }),
{
    lemma_header(block_size, low32(indices.len() as int));
}

/// A packed blob, byte by byte: `FCBK`, the version 1 in two bytes, the block size and the number
/// of blocks in four bytes each, six zeros, four bytes for each index, and the data. Numbers have
/// their low byte first.
pub proof fn blob_layout(block_size: u32, indices: Seq<u32>, data: Seq<u8>)
    ensures
        ({
            let blob = packed(block_size, indices, data);
            let count = indices.len() as int;
            &&& blob.len() == 20 + 4 * count + data.len()
            &&& blob.take(4) == seq![70u8, 67u8, 66u8, 75u8]
            &&& blob[4] == 1 && blob[5] == 0
            &&& number_at(blob, 6) == block_size
            &&& number_at(blob, 10) == count % 0x1_0000_0000
            &&& forall|i: int| 14 <= i < 20 ==> #[trigger] blob[i] == 0
            &&& forall|i: int|
                0 <= i < count ==> number_at(blob, 20 + 4 * i) == #[trigger] indices[i]
            &&& forall|j: int|
                0 <= j < data.len() ==> blob[20 + 4 * count + j] == #[trigger] data[j]
        }),
{
    let blob = packed(block_size, indices, data);
    let count = indices.len() as int;
    let header = packed_header(block_size, low32(count));
    let table = packed_table(indices);
    lemma_header(block_size, low32(count));
    lemma_blob_parts(block_size, indices, data);
    assert(blob[0] == header[0] && blob[1] == header[1] && blob[2] == header[2] && blob[3]
        == header[3]);
    assert(blob.take(4) =~= seq![70u8, 67u8, 66u8, 75u8]);
    assert(number_at(blob, 6) == number_at(header, 6));
    assert(number_at(blob, 10) == number_at(header, 10));
    assert forall|i: int| 0 <= i < count implies number_at(blob, 20 + 4 * i)
        == #[trigger] indices[i] by {
        lemma_table_entry(indices, i);
        assert(blob[20 + 4 * i] == table[4 * i]);
        assert(blob[20 + 4 * i + 1] == table[4 * i + 1]);
        assert(blob[20 + 4 * i + 2] == table[4 * i + 2]);
        assert(blob[20 + 4 * i + 3] == table[4 * i + 3]);
    }
}

/// The difference of two blocks is, byte by byte, their exclusive or.
pub proof fn difference_is_bytewise(a: Seq<u8>, b: Seq<u8>, i: int)
    requires
        0 <= i < a.len(),
    ensures
        xored(a, b).len() == a.len(),
        xored(a, b)[i] == a[i] ^ b[i],
{
}

/// The 32 low bits of a number.
pub proof fn low_bits_are_the_remainder(n: int)
    ensures
        low32(n) as int == n % 0x1_0000_0000,
{
}

proof fn lemma_carried_are_emitted<'a>(
    before: Vmm<'a>,
    input: DeltaInput,
    flat: FlatGuest,
    carried: Seq<int>,
)
    requires
        input.wf(),
        input.blocks == flat.blocks,
        forall|g: int|
            0 <= g < flat.blocks.len() ==> #[trigger] input.changed(g) == block_changed(
                flat,
                before.delta_hashes@,
                g,
            ),
        forall|g: int| #[trigger] input.base(g) == block_base(before, g),
        lists(
            carried,
            |g: int|
                block_changed(flat, before.delta_hashes@, g) && flat.blocks[g] != block_base(
                    before,
                    g,
                ),
        ),
    ensures
        input.emitted(flat.blocks.len() as int) == carried,
        carried.len() <= flat.blocks.len(),
        forall|i: int|
            0 <= i < carried.len() ==> 0 <= #[trigger] carried[i] < flat.blocks.len(),
{
    let n = flat.blocks.len() as int;
    let own = input.emitted(n);
    input.emitted_is_exact(n);
    let holds = |g: int|
        block_changed(flat, before.delta_hashes@, g) && flat.blocks[g] != block_base(before, g);
    assert forall|g: int| #[trigger] own.contains(g) <==> holds(g) by {
        if 0 <= g < n {
            assert(input.changed(g) == block_changed(flat, before.delta_hashes@, g));
            assert(input.base(g) == block_base(before, g));
        }
    }
    lemma_lists_once(carried, own, holds);
    assert forall|i: int| 0 <= i < carried.len() implies 0 <= #[trigger] carried[i]
        < flat.blocks.len() by {
        assert(own.contains(carried[i]));
    }
}

proof fn lemma_difference_at(input: DeltaInput, carried: Seq<int>, i: int, j: int)
    requires
        input.wf(),
        0 <= i < carried.len(),
        0 <= carried[i] < input.blocks.len(),
        0 <= j < input.block_size,
    ensures
        input.data_of(carried).len() == carried.len() * input.block_size,
        0 <= i * input.block_size + j < input.data_of(carried).len(),
        input.data_of(carried)[i * input.block_size + j] == input.blocks[carried[i]][j]
            ^ input.base(carried[i])[j],
{
    let size = input.block_size;
    let count = carried.len() as int;
    assert(input.blocks[carried[i]].len() == size);
    assert(0 <= i * size + j < count * size && count * size >= 0) by (nonlinear_arith)
        requires
            0 <= i,
            i + 1 <= count,
            0 <= j < size,
    ;
    vstd::arithmetic::div_mod::lemma_fundamental_div_mod_converse(i * size + j, size, i, j);
}

proof fn lemma_blob_entries(input: DeltaInput, carried: Seq<int>, blob: Seq<u8>)
    requires
        input.wf(),
        input.blocks.len() < 0x1_0000_0000,
        input.emitted(input.fresh.len() as int) == carried,
        forall|i: int|
            0 <= i < carried.len() ==> 0 <= #[trigger] carried[i] < input.blocks.len(),
        forall|i: int|
            0 <= i < carried.len() ==> number_at(blob, 20 + 4 * i) == #[trigger] input.indices_of(
                carried,
            )[i],
        forall|j: int|
            0 <= j < input.data_of(carried).len() ==> blob[20 + 4 * carried.len() + j]
                == #[trigger] input.data_of(carried)[j],
    ensures
        forall|i: int|
            0 <= i < carried.len() ==> number_at(blob, 20 + 4 * i)
                == input.local[#[trigger] carried[i]],
        forall|i: int, j: int|
            0 <= i < carried.len() && 0 <= j < input.block_size ==> blob[20 + 4 * carried.len() + i
                * input.block_size + j] == #[trigger] input.blocks[carried[i]][j] ^ input.base(
                carried[i],
            )[j],
{
    assert forall|i: int| 0 <= i < carried.len() implies number_at(blob, 20 + 4 * i)
        == input.local[#[trigger] carried[i]] by {
        input.table_entry_is_local(i);
        assert(number_at(blob, 20 + 4 * i) == input.indices_of(carried)[i]);
    }
    assert forall|i: int, j: int| 0 <= i < carried.len() && 0 <= j < input.block_size implies blob[20
        + 4 * carried.len() + i * input.block_size + j] == #[trigger] input.blocks[carried[i]][j]
        ^ input.base(carried[i])[j] by {
        lemma_difference_at(input, carried, i, j);
        assert(blob[20 + 4 * carried.len() + (i * input.block_size + j)] == input.data_of(
            carried,
        )[i * input.block_size + j]);
    }
}

/// A packed delta's frame decodes to a blob that carries, in order, exactly the blocks that changed
/// and differ from their base. For each it has the block's index inside its slot, and its bytes
/// exclusive-or'd with those of its base. The figures beside the frame are those of the blob.
#[verifier::spinoff_prover]
#[verifier::rlimit(30)]
pub proof fn frame_holds_the_differences<'a>(
    before: Vmm<'a>,
    after: Vmm<'a>,
    slots: Seq<MemSlot<'_>>,
    dirty: Seq<u64>,
    page_size: int,
    delta: DirtyDeltaPacked,
    flat: FlatGuest,
    page_words: Seq<int>,
    firsts: Seq<int>,
    carried: Seq<int>,
)
    requires
        before.wf(),
        before.golden_base is Some,
        before.host_page_size < 0x1_0000_0000,
        page_size > 0,
        before.packs_to(after, slots, dirty, page_size, delta),
        shows(
            flat,
            slots,
            dirty,
            page_size,
            before.host_page_size as int,
            page_words,
            firsts,
        ),
        flat.blocks.len() < 0x1_0000_0000,
        lists(
            carried,
            |g: int|
                block_changed(flat, before.delta_hashes@, g) && flat.blocks[g] != block_base(
                    before,
                    g,
                ),
        ),
    ensures
        ({
            let size = before.host_page_size as int;
            let count = carried.len() as int;
            &&& lz4_frame_content(delta.blob@) matches Some(blob)
            &&& blob.len() == 20 + 4 * count + count * size
            &&& blob.take(4) == seq![70u8, 67u8, 66u8, 75u8]
            &&& blob[4] == 1 && blob[5] == 0
            &&& number_at(blob, 6) == size
            &&& number_at(blob, 10) == count
            &&& forall|i: int|
                0 <= i < count ==> number_at(blob, 20 + 4 * i) == flat.local[#[trigger] carried[i]]
            &&& forall|i: int, j: int|
                0 <= i < count && 0 <= j < size ==> blob[20 + 4 * count + i * size + j]
                    == #[trigger] flat.blocks[carried[i]][j] ^ block_base(before, carried[i])[j]
            &&& delta.block_count == count
            &&& delta.raw_size == blob.len()
        }),
{
    let input = before.delta_input(slots, dirty, page_size);
    let size = before.host_page_size as int;
    let count = carried.len() as int;
    lemma_input_is_flat(before, slots, dirty, page_size, flat, page_words, firsts);
    lemma_carried_are_emitted(before, input, flat, carried);
    let data = input.data_of(carried);
    let blob = packed(low32(size), input.indices_of(carried), data);
    blob_layout(low32(size), input.indices_of(carried), data);
    assert(data.len() == count * size) by {
        assert(count * size >= 0) by (nonlinear_arith)
            requires
                count >= 0,
                size >= 0,
        ;
    }
    lemma_blob_entries(input, carried, blob);
    assert forall|i: int, j: int| 0 <= i < count && 0 <= j < size implies blob[20 + 4 * count + i
        * size + j] == #[trigger] flat.blocks[carried[i]][j] ^ block_base(before, carried[i])[j] by {
        assert(input.base(carried[i]) == block_base(before, carried[i]));
        assert(input.blocks[carried[i]][j] == flat.blocks[carried[i]][j]);
    }
}

#[verifier::spinoff_prover]
#[verifier::rlimit(30)]
proof fn lemma_difference_in_frame<'a>(
    before: Vmm<'a>,
    after: Vmm<'a>,
    slots: Seq<MemSlot<'_>>,
    dirty: Seq<u64>,
    page_size: int,
    delta: DirtyDeltaPacked,
    flat: FlatGuest,
    page_words: Seq<int>,
    firsts: Seq<int>,
    carried: Seq<int>,
    i: int,
    j: int,
)
    requires
        before.wf(),
        before.golden_base is Some,
        before.host_page_size < 0x1_0000_0000,
        page_size > 0,
        before.packs_to(after, slots, dirty, page_size, delta),
        shows(
            flat,
            slots,
            dirty,
            page_size,
            before.host_page_size as int,
            page_words,
            firsts,
        ),
        flat.blocks.len() < 0x1_0000_0000,
        lists(
            carried,
            |g: int|
                block_changed(flat, before.delta_hashes@, g) && flat.blocks[g] != block_base(
                    before,
                    g,
                ),
        ),
        0 <= i < carried.len(),
        0 <= j < before.host_page_size,
    ensures
        delta.is_p_frame <==> exists|k: u32| before.prev_checkpoint_blocks@.contains_key(k),
        lz4_frame_content(delta.blob@) matches Some(blob) && blob[20 + 4 * carried.len() + i
            * before.host_page_size + j] == flat.blocks[carried[i]][j] ^ block_base(
            before,
            carried[i],
        )[j],
{
    packed_delta_stores_hashes(
        before,
        after,
        slots,
        dirty,
        page_size,
        delta,
        flat,
        page_words,
        firsts,
    );
    frame_holds_the_differences(
        before,
        after,
        slots,
        dirty,
        page_size,
        delta,
        flat,
        page_words,
        firsts,
        carried,
    );
}

#[verifier::spinoff_prover]
#[verifier::rlimit(30)]
proof fn lemma_changed_is_base<'a>(
    before: Vmm<'a>,
    after: Vmm<'a>,
    slots: Seq<MemSlot<'_>>,
    dirty: Seq<u64>,
    page_size: int,
    delta: DirtyDeltaPacked,
    flat: FlatGuest,
    page_words: Seq<int>,
    firsts: Seq<int>,
    changed: Seq<int>,
    g: int,
)
    requires
        before.wf(),
        before.golden_base is Some,
        page_size > 0,
        before.packs_to(after, slots, dirty, page_size, delta),
        shows(
            flat,
            slots,
            dirty,
            page_size,
            before.host_page_size as int,
            page_words,
            firsts,
        ),
        flat.blocks.len() < 0x1_0000_0000,
        lists(changed, |g: int| block_changed(flat, before.delta_hashes@, g)),
        changed.len() <= 4096,
        changed.contains(g),
    ensures
        after.golden_base is Some,
        after.host_page_size == before.host_page_size,
        after.prev_checkpoint_blocks@.contains_key(g as u32),
        block_base(after, g) == flat.blocks[g],
{
    assert((|g: int| block_changed(flat, before.delta_hashes@, g))(g));
    changed_blocks_are_kept(
        before,
        after,
        slots,
        dirty,
        page_size,
        delta,
        flat,
        page_words,
        firsts,
        changed,
        g as u32,
    );
    packed_delta_stores_hashes(
        before,
        after,
        slots,
        dirty,
        page_size,
        delta,
        flat,
        page_words,
        firsts,
    );
}

/// The next packed delta tells a block against its content at this checkpoint: where this one found
/// the block changed, along with no more than 4096 in all, the next one's entry for it is the block
/// as it now stands exclusive-or'd with the block as it stood here.
#[verifier::spinoff_prover]
#[verifier::rlimit(30)]
pub proof fn next_delta_builds_on_this_one<'a>(
    before: Vmm<'a>,
    between: Vmm<'a>,
    after: Vmm<'a>,
    slots: Seq<MemSlot<'_>>,
    dirty: Seq<u64>,
    flat: FlatGuest,
    first: DirtyDeltaPacked,
    next_slots: Seq<MemSlot<'_>>,
    next_dirty: Seq<u64>,
    next_flat: FlatGuest,
    second: DirtyDeltaPacked,
    page_size: int,
    page_words: Seq<int>,
    firsts: Seq<int>,
    next_page_words: Seq<int>,
    next_firsts: Seq<int>,
    changed: Seq<int>,
    carried: Seq<int>,
    i: int,
    j: int,
)
    requires
        before.wf(),
        between.wf(),
        before.golden_base is Some,
        before.host_page_size < 0x1_0000_0000,
        page_size > 0,
        before.packs_to(between, slots, dirty, page_size, first),
        between.packs_to(after, next_slots, next_dirty, page_size, second),
        shows(
            flat,
            slots,
            dirty,
            page_size,
            before.host_page_size as int,
            page_words,
            firsts,
        ),
        shows(
            next_flat,
            next_slots,
            next_dirty,
            page_size,
            before.host_page_size as int,
            next_page_words,
            next_firsts,
        ),
        flat.blocks.len() < 0x1_0000_0000,
        next_flat.blocks.len() < 0x1_0000_0000,
        lists(changed, |g: int| block_changed(flat, before.delta_hashes@, g)),
        changed.len() <= 4096,
        lists(
            carried,
            |g: int|
                block_changed(next_flat, between.delta_hashes@, g) && next_flat.blocks[g]
                    != block_base(between, g),
        ),
        0 <= i < carried.len(),
        changed.contains(carried[i]),
        0 <= j < before.host_page_size,
    ensures
        ({
            let size = before.host_page_size as int;
            &&& second.is_p_frame
            &&& block_base(between, carried[i]) == flat.blocks[carried[i]]
            &&& lz4_frame_content(second.blob@) matches Some(blob)
            &&& blob[20 + 4 * carried.len() + i * size + j] == next_flat.blocks[carried[i]][j]
                ^ flat.blocks[carried[i]][j]
        }),
{
    lemma_changed_is_base(
        before,
        between,
        slots,
        dirty,
        page_size,
        first,
        flat,
        page_words,
        firsts,
        changed,
        carried[i],
    );
    lemma_difference_in_frame(
        between,
        after,
        next_slots,
        next_dirty,
        page_size,
        second,
        next_flat,
        next_page_words,
        next_firsts,
        carried,
        i,
        j,
    );
}

/// The cap on kept blocks: up to 4096 blocks are kept, all of them; beyond that none.
pub proof fn cap_keeps_all_or_none(kept: Map<u32, Seq<u8>>)
    ensures
        kept.len() <= 4096 ==> capped(kept) == kept,
        kept.len() > 4096 ==> capped(kept) == Map::<u32, Seq<u8>>::empty(),
{
}

/// A delta over any hashes: block `l` of a slot is marked exactly where a fresh hash for it is at
/// hand, a stored one too, and the two differ. Bits behind the slot's last block are clear.
pub proof fn differing_hashes_are_marked(
    lens: Seq<int>,
    stored: Seq<u64>,
    fresh: Seq<Option<u64>>,
    page_size: int,
    block_size: int,
    delta: Seq<u64>,
    words: Seq<int>,
    firsts: Seq<int>,
    s: int,
    l: int,
)
    requires
        page_size > 0,
        block_size > 0,
        forall|k: int| 0 <= k < lens.len() ==> lens[k] >= 0,
        running_totals(words, bitmap_words(lens, block_size)),
        running_totals(
            firsts,
            Seq::new(lens.len(), |k: int| (lens[k] / page_size) * (page_size / block_size)),
        ),
        bits(delta) == delta_bits(
            lens,
            stored,
            fresh,
            page_size,
            block_size,
            lens.len() as int,
        ),
        0 <= s < lens.len(),
        0 <= l < 64 * ((lens[s] / block_size + 63) / 64),
    ensures
        delta.len() == words[lens.len() as int],
        0 <= words[s] + l / 64 < delta.len(),
        delta[words[s] + l / 64] & (1u64 << ((l % 64) as u64)) != 0 <==> {
            &&& l < (lens[s] / page_size) * (page_size / block_size)
            &&& firsts[s] + l < stored.len()
            &&& fresh[firsts[s] + l] matches Some(hash)
            &&& hash != stored[firsts[s] + l]
        },
{
    let n = lens.len() as int;
    bitmaps_begin_at_totals(lens, block_size, words, s);
    bitmaps_begin_at_totals(lens, block_size, words, n);
    crate::laws::guest::block_numbers_add_up(lens, page_size, block_size, firsts, s);
    lemma_delta_bit_at(lens, stored, fresh, page_size, block_size, n, s, l);
    lemma_delta_len(lens, stored, fresh, page_size, block_size, n);
    let at = 64 * words[s] + l;
    assert(bits(delta)[at] == bit(delta, at));
    assert(at / 64 == words[s] + l / 64 && at % 64 == l % 64);
    blocks_fit(lens[s], page_size, block_size);
}

/// Taking fresh hashes over replaces the stored hash of every block that has a fresh one, and no
/// other.
pub proof fn fresh_hashes_are_taken_over(stored: Seq<u64>, fresh: Seq<Option<u64>>, g: int)
    requires
        0 <= g < stored.len(),
    ensures
        refreshed(stored, fresh, fresh.len() as int).len() == stored.len(),
        refreshed(stored, fresh, fresh.len() as int)[g] == if g < fresh.len() && fresh[g] is Some {
            fresh[g]->0
        } else {
            stored[g]
        },
{
}

/// What a packed delta goes by, block for block: which blocks count as changed, what they are told
/// against, and what they are named and kept by.
pub proof fn terms_of_a_packed_delta(input: DeltaInput, g: int)
    requires
        0 <= g < input.blocks.len(),
        input.wf(),
    ensures
        input.changed(g) <==> g < input.stored.len() && (input.fresh[g] matches Some(hash) && hash
            != input.stored[g]),
        input.key(g) as int == g % 0x1_0000_0000,
        input.index(g) as int == input.local[g] % 0x1_0000_0000,
        input.prev.contains_key((g % 0x1_0000_0000) as u32) ==> input.base(g) == input.prev[(g
            % 0x1_0000_0000) as u32],
        !input.prev.contains_key((g % 0x1_0000_0000) as u32) ==> input.base(g)
            == input.golden.subrange(g * input.block_size, (g + 1) * input.block_size),
{
}

/// The blocks that a packed delta collects, for any hashes: those that changed and differ from
/// their base, in order, each as its index and its bytes exclusive-or'd with its base.
pub proof fn collected_blocks_are_differences(
    input: DeltaInput,
    carried: Seq<int>,
    i: int,
    j: int,
)
    requires
        input.wf(),
        lists(
            carried,
            |g: int|
                0 <= g < input.blocks.len() && input.changed(g) && input.blocks[g] != input.base(g),
        ),
        0 <= i < carried.len(),
        0 <= j < input.block_size,
    ensures
        ({
            let own = input.emitted(input.fresh.len() as int);
            &&& own == carried
            &&& input.indices_of(own).len() == carried.len()
            &&& input.indices_of(own)[i] as int == input.local[carried[i]] % 0x1_0000_0000
            &&& input.data_of(own).len() == carried.len() * input.block_size
            &&& input.data_of(own)[i * input.block_size + j] == input.blocks[carried[i]][j]
                ^ input.base(carried[i])[j]
        }),
{
    let n = input.fresh.len() as int;
    let own = input.emitted(n);
    input.emitted_is_exact(n);
    lemma_lists_once(
        carried,
        own,
        |g: int|
            0 <= g < input.blocks.len() && input.changed(g) && input.blocks[g] != input.base(g),
    );
    assert(own.contains(own[i]));
    lemma_difference_at(input, own, i, j);
}

/// What is kept of a packed delta, for any hashes: as long as 32 bits number the blocks, every
/// changed block under its place, as it stands, and nothing else.
pub proof fn kept_blocks_are_the_changed_ones(input: DeltaInput, k: u32)
    requires
        input.wf(),
        input.blocks.len() <= 0x1_0000_0000,
    ensures
        ({
            let kept = input.kept(input.fresh.len() as int);
            &&& kept.contains_key(k) <==> (k as int) < input.blocks.len() && input.changed(k as int)
            &&& kept.contains_key(k) ==> kept[k] == input.blocks[k as int]
        }),
{
    let n = input.fresh.len() as int;
    input.kept_is_exact(n);
    if input.kept(n).contains_key(k) {
        lemma_kept_domain(input, n, k);
    }
    if (k as int) < n {
        assert(input.key(k as int) == k);
    }
}

/// A map of blocks, seen by their bytes, has the same keys and the bytes of each block.
pub proof fn viewed_blocks_are_their_bytes(map: Map<u32, Vec<u8>>, k: u32)
    ensures
        blocks_view(map).contains_key(k) <==> map.contains_key(k),
        map.contains_key(k) ==> blocks_view(map)[k] == map[k]@,
{
}

} // verus!
