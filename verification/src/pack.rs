//! Collecting changed blocks against their bases, and laying them out as a packed blob.

use crate::delta::{
    block_at, changed_at, changed_count, guest_blocks, local_indices, refreshed,
};
use crate::outside::xxh3_of;
use crate::memory::{
    blocks_before, blocks_before_bounds, blocks_fit, blocks_in, slot_lens, MemSlot,
};
use std::collections::HashMap;
use vstd::arithmetic::div_mod::*;
use vstd::prelude::*;
use vstd::slice::{slice_subrange, slice_to_vec};

verus! {

broadcast use vstd::std_specs::hash::group_hash_axioms;

/// The low 32 bits of `n`.
pub open spec fn low32(n: int) -> u32 {
    (n % 0x1_0000_0000) as u32
}

/// The low 32 bits of `n`.
pub fn to_low32(n: usize) -> (r: u32)
    ensures
        r == low32(n as int),
{
    (n as u64 % 0x1_0000_0000u64) as u32
}

/// The bytes of `a` exclusive-or'd with those of `b`.
pub open spec fn xored(a: Seq<u8>, b: Seq<u8>) -> Seq<u8> {
    Seq::new(a.len(), |i: int| a[i] ^ b[i])
}

/// A block map with its blocks taken as sequences.
pub open spec fn blocks_view(map: Map<u32, Vec<u8>>) -> Map<u32, Seq<u8>> {
    map.map_values(|block: Vec<u8>| block@)
}

/// All that decides which blocks a packed delta carries, and how.
pub struct DeltaInput {
    /// The blocks of guest memory, slot after slot.
    pub blocks: Seq<Seq<u8>>,
    /// For each block, its index inside its slot.
    pub local: Seq<int>,
    /// For each block in a dirty page, its hash.
    pub fresh: Seq<Option<u64>>,
    /// The hashes stored by the checkpoint before.
    pub stored: Seq<u64>,
    /// The blocks that the checkpoint before found changed, by their place among all blocks.
    pub prev: Map<u32, Seq<u8>>,
    /// The golden image.
    pub golden: Seq<u8>,
    /// Bytes in a block.
    pub block_size: int,
}

impl DeltaInput {
    /// Whether the hash of block `g` changed.
    pub open spec fn changed(self, g: int) -> bool {
        changed_at(self.stored, self.fresh, g)
    }

    /// The index that block `g` goes by in the blob: its place inside its slot, in 32 bits.
    pub open spec fn index(self, g: int) -> u32 {
        low32(self.local[g])
    }

    /// What block `g` is kept under: its place among the blocks of all slots, in 32 bits, so that
    /// blocks of different slots are kept apart.
    pub open spec fn key(self, g: int) -> u32 {
        low32(g)
    }

    /// What block `g` is exclusive-or'd with: the block as the checkpoint before kept it, or else
    /// the golden image's block at its place, the one that its stored hash began as.
    pub open spec fn base(self, g: int) -> Seq<u8> {
        if self.prev.contains_key(self.key(g)) {
            self.prev[self.key(g)]
        } else {
            block_at(self.golden, self.block_size, g)
        }
    }

    /// The blocks among the first `n` that the blob carries: those that changed and differ from
    /// their base.
    pub open spec fn emitted(self, n: int) -> Seq<int>
        decreases n,
    {
        if n <= 0 {
            Seq::empty()
        } else if self.changed(n - 1) && self.blocks[n - 1] != self.base(n - 1) {
            self.emitted(n - 1).push(n - 1)
        } else {
            self.emitted(n - 1)
        }
    }

    /// The indices of the blocks `carried`.
    pub open spec fn indices_of(self, carried: Seq<int>) -> Seq<u32> {
        carried.map_values(|g: int| self.index(g))
    }

    /// The blocks `carried`, each exclusive-or'd with its base, one after the other.
    pub open spec fn data_of(self, carried: Seq<int>) -> Seq<u8> {
        Seq::new(
            (carried.len() * self.block_size) as nat,
            |i: int|
                xored(
                    self.blocks[carried[i / self.block_size]],
                    self.base(carried[i / self.block_size]),
                )[i % self.block_size],
        )
    }

    /// The blocks among the first `n` that changed, each under its key. Where two share a key the
    /// later one stands.
    pub open spec fn kept(self, n: int) -> Map<u32, Seq<u8>>
        decreases n,
    {
        if n <= 0 {
            Map::empty()
        } else if self.changed(n - 1) {
            self.kept(n - 1).insert(self.key(n - 1), self.blocks[n - 1])
        } else {
            self.kept(n - 1)
        }
    }

    /// The sequences belong together: one entry for each block, blocks of the block size, a golden
    /// image with one stored hash for each of its blocks.
    pub open spec fn wf(self) -> bool {
        &&& self.block_size > 0
        &&& self.local.len() == self.blocks.len()
        &&& self.fresh.len() == self.blocks.len()
        &&& forall|g: int| 0 <= g < self.local.len() ==> 0 <= #[trigger] self.local[g] <= g
        &&& self.stored.len() == self.golden.len() / self.block_size as nat
        &&& forall|g: int|
            0 <= g < self.blocks.len() ==> (#[trigger] self.blocks[g]).len() == self.block_size
        &&& forall|k: u32| #[trigger]
            self.prev.contains_key(k) ==> self.prev[k].len() == self.block_size
    }

    /// Kept blocks are of the block size.
    pub proof fn kept_blocks_are_whole(self, n: int)
        requires
            self.wf(),
            n <= self.blocks.len(),
        ensures
            forall|k: u32| #[trigger]
                self.kept(n).contains_key(k) ==> self.kept(n)[k].len() == self.block_size,
        decreases n,
    {
        if n > 0 {
            self.kept_blocks_are_whole(n - 1);
            assert(self.blocks[n - 1].len() == self.block_size);
            assert forall|k: u32| #[trigger] self.kept(n).contains_key(k) implies self.kept(
                n,
            )[k].len() == self.block_size by {
                if !(self.changed(n - 1) && k == self.key(n - 1)) {
                    assert(self.kept(n - 1).contains_key(k));
                }
            }
        }
    }
}

/// The input that a set of slots gives.
pub open spec fn delta_input(
    slots: Seq<MemSlot<'_>>,
    fresh: Seq<Option<u64>>,
    stored: Seq<u64>,
    prev: Map<u32, Vec<u8>>,
    golden: Seq<u8>,
    page_size: int,
    block_size: int,
) -> DeltaInput {
    DeltaInput {
        blocks: guest_blocks(slots, page_size, block_size, slots.len() as int),
        local: local_indices(slots, page_size, block_size, slots.len() as int),
        fresh,
        stored,
        prev: blocks_view(prev),
        golden,
        block_size,
    }
}

/// Block `l` of slot `s` stands behind the blocks of the slots before it.
pub proof fn block_entry(
    slots: Seq<MemSlot<'_>>,
    page_size: int,
    block_size: int,
    n: int,
    s: int,
    l: int,
)
    requires
        0 <= s < n <= slots.len(),
        page_size > 0,
        block_size > 0,
        0 <= l < blocks_in(slots[s].bytes@.len() as int, page_size, block_size),
    ensures
        ({
            let g = blocks_before(slot_lens(slots), page_size, block_size, s) + l;
            &&& 0 <= g < guest_blocks(slots, page_size, block_size, n).len()
            &&& guest_blocks(slots, page_size, block_size, n)[g] == block_at(
                slots[s].bytes@,
                block_size,
                l,
            )
            &&& local_indices(slots, page_size, block_size, n)[g] == l
        }),
    decreases n,
{
    let lens = slot_lens(slots);
    crate::delta::block_sequence_lens(slots, Seq::empty(), page_size, block_size, n - 1);
    crate::delta::block_sequence_lens(slots, Seq::empty(), page_size, block_size, n);
    blocks_before_bounds(lens, page_size, block_size, s, n - 1);
    if s < n - 1 {
        block_entry(slots, page_size, block_size, n - 1, s, l);
    }
}

/// Every block of the slots is entered as `wf` asks.
proof fn lemma_entries_wf(slots: Seq<MemSlot<'_>>, page_size: int, block_size: int, n: int)
    requires
        0 <= n <= slots.len(),
        page_size > 0,
        block_size > 0,
    ensures
        forall|g: int|
            0 <= g < guest_blocks(slots, page_size, block_size, n).len() ==> (
            #[trigger] guest_blocks(slots, page_size, block_size, n)[g]).len() == block_size,
        forall|g: int|
            0 <= g < local_indices(slots, page_size, block_size, n).len() ==> 0
                <= #[trigger] local_indices(slots, page_size, block_size, n)[g] <= g,
    decreases n,
{
    if n > 0 {
        lemma_entries_wf(slots, page_size, block_size, n - 1);
        let len = slots[n - 1].bytes@.len() as int;
        blocks_fit(len, page_size, block_size);
        let blocks = blocks_in(len, page_size, block_size);
        assert forall|l: int| 0 <= l < blocks implies #[trigger] block_at(
            slots[n - 1].bytes@,
            block_size,
            l,
        ).len() == block_size by {
            assert(0 <= l * block_size && (l + 1) * block_size <= len && (l + 1) * block_size == l
                * block_size + block_size) by (nonlinear_arith)
                requires
                    0 <= l,
                    l + 1 <= blocks,
                    blocks * block_size <= len,
                    block_size > 0,
            ;
        }
        let shorter = guest_blocks(slots, page_size, block_size, n - 1);
        let longer = guest_blocks(slots, page_size, block_size, n);
        assert forall|g: int| 0 <= g < longer.len() implies (#[trigger] longer[g]).len()
            == block_size by {
            if g < shorter.len() {
                assert(longer[g] == shorter[g]);
            } else {
                assert(longer[g] == block_at(
                    slots[n - 1].bytes@,
                    block_size,
                    g - shorter.len(),
                ));
            }
        }
        let shorter = local_indices(slots, page_size, block_size, n - 1);
        let longer = local_indices(slots, page_size, block_size, n);
        assert forall|g: int| 0 <= g < longer.len() implies 0 <= #[trigger] longer[g] <= g by {
            if g < shorter.len() {
                assert(longer[g] == shorter[g]);
            } else {
                assert(longer[g] == g - shorter.len());
            }
        }
    }
}

/// Slots, hashes of their blocks, stored hashes and a golden image that match each other give an
/// input that is well formed.
pub proof fn delta_input_wf(
    slots: Seq<MemSlot<'_>>,
    fresh: Seq<Option<u64>>,
    stored: Seq<u64>,
    prev: Map<u32, Vec<u8>>,
    golden: Seq<u8>,
    page_size: int,
    block_size: int,
)
    requires
        page_size > 0,
        block_size > 0,
        fresh.len() == blocks_before(
            slot_lens(slots),
            page_size,
            block_size,
            slots.len() as int,
        ),
        stored.len() == golden.len() / block_size as nat,
        forall|k: u32| #[trigger] prev.contains_key(k) ==> prev[k]@.len() == block_size,
    ensures
        delta_input(slots, fresh, stored, prev, golden, page_size, block_size).wf(),
{
    crate::delta::block_sequence_lens(
        slots,
        Seq::empty(),
        page_size,
        block_size,
        slots.len() as int,
    );
    lemma_entries_wf(slots, page_size, block_size, slots.len() as int);
    assert forall|k: u32| #[trigger] blocks_view(prev).contains_key(k) implies blocks_view(
        prev,
    )[k].len() == block_size by {
        assert(prev.contains_key(k));
    }
}

proof fn lemma_data_push(input: DeltaInput, carried: Seq<int>, g: int)
    requires
        input.block_size > 0,
        input.blocks[g].len() == input.block_size,
    ensures
        input.data_of(carried.push(g)) == input.data_of(carried) + xored(
            input.blocks[g],
            input.base(g),
        ),
{
    let bs = input.block_size;
    let n = carried.len() as int;
    let longer = carried.push(g);
    assert((n + 1) * bs == n * bs + bs && n * bs >= 0) by (nonlinear_arith)
        requires
            bs > 0,
            n >= 0,
    ;
    assert forall|i: int| 0 <= i < (n + 1) * bs implies #[trigger] input.data_of(longer)[i] == (
    input.data_of(carried) + xored(input.blocks[g], input.base(g)))[i] by {
        if i < n * bs {
            lemma_fundamental_div_mod(i, bs);
            lemma_div_pos_is_pos(i, bs);
            assert(i / bs < n) by (nonlinear_arith)
                requires
                    i < n * bs,
                    bs * (i / bs) <= i,
                    bs > 0,
            ;
            assert(longer[i / bs] == carried[i / bs]);
        } else {
            lemma_fundamental_div_mod_converse(i, bs, n, i - n * bs);
        }
    }
    assert(input.data_of(longer) =~= input.data_of(carried) + xored(
        input.blocks[g],
        input.base(g),
    ));
}

/// Exclusive-ors two blocks, and tells whether they are the same.
pub fn xor_blocks(block: &[u8], base: &[u8]) -> (res: (Vec<u8>, bool))
    requires
        block@.len() == base@.len(),
    ensures
        res.0@ == xored(block@, base@),
        res.1 == (block@ == base@),
{
    let mut out: Vec<u8> = Vec::with_capacity(block.len());
    let mut same = true;
    let mut i: usize = 0;
    assert(block@.take(0) =~= base@.take(0));
    while i < block.len()
        invariant
            0 <= i <= block@.len(),
            block@.len() == base@.len(),
            out@ == xored(block@, base@).take(i as int),
            same == (block@.take(i as int) == base@.take(i as int)),
        decreases block@.len() - i,
    {
        let x: u8 = block[i];
        let y: u8 = base[i];
        let z: u8 = x ^ y;
        assert((x ^ y == 0) == (x == y)) by (bit_vector);
        if z != 0 {
            same = false;
        }
        out.push(z);
        proof {
            let k = i as int;
            assert(block@.take(k + 1) =~= block@.take(k).push(x));
            assert(base@.take(k + 1) =~= base@.take(k).push(y));
            assert(block@.take(k) =~= block@.take(k + 1).take(k));
            assert(base@.take(k) =~= base@.take(k + 1).take(k));
            assert(block@.take(k + 1)[k] == x && base@.take(k + 1)[k] == y);
        }
        i = i + 1;
        assert(out@ =~= xored(block@, base@).take(i as int));
    }
    assert(block@.take(block@.len() as int) =~= block@);
    assert(base@.take(block@.len() as int) =~= base@);
    assert(out@ =~= xored(block@, base@));
    (out, same)
}

/// The blocks that a packed delta is made of.
pub struct DeltaBlocks {
    /// The indices of the carried blocks, each inside its slot.
    pub indices: Vec<u32>,
    /// The carried blocks, each exclusive-or'd with its base.
    pub data: Vec<u8>,
    /// Every changed block as it stands in memory, by its place among the blocks of all slots.
    pub kept: HashMap<u32, Vec<u8>>,
}

/// Collects the blocks whose hash changed, takes their hashes over into `stored`, and skips those
/// that equal their base.
pub fn collect_changed(
    stored: &mut Vec<u64>,
    prev: &HashMap<u32, Vec<u8>>,
    golden: &[u8],
    slots: &Vec<MemSlot<'_>>,
    fresh: &Vec<Option<u64>>,
    page_size: usize,
    block_size: usize,
) -> (out: DeltaBlocks)
    requires
        page_size > 0,
        block_size > 0,
        fresh@.len() == blocks_before(
            slot_lens(slots@),
            page_size as int,
            block_size as int,
            slots@.len() as int,
        ),
        old(stored)@.len() == golden@.len() / block_size as nat,
        forall|k: u32| #[trigger] prev@.contains_key(k) ==> prev@[k]@.len() == block_size,
    ensures
        ({
            let input = delta_input(
                slots@,
                fresh@,
                old(stored)@,
                prev@,
                golden@,
                page_size as int,
                block_size as int,
            );
            let carried = input.emitted(fresh@.len() as int);
            &&& out.indices@ == input.indices_of(carried)
            &&& out.data@ == input.data_of(carried)
            &&& blocks_view(out.kept@) == input.kept(fresh@.len() as int)
        }),
        final(stored)@ == refreshed(old(stored)@, fresh@, fresh@.len() as int),
{
    let subs: usize = page_size / block_size;
    let mut indices: Vec<u32> = Vec::new();
    let mut data: Vec<u8> = Vec::new();
    let mut kept: HashMap<u32, Vec<u8>> = HashMap::new();
    let mut g: usize = 0;
    let mut s: usize = 0;
    let ghost ps = page_size as int;
    let ghost bs = block_size as int;
    let ghost lens = slot_lens(slots@);
    let ghost before = stored@;
    let ghost input = delta_input(slots@, fresh@, before, prev@, golden@, ps, bs);
    proof {
        delta_input_wf(slots@, fresh@, before, prev@, golden@, ps, bs);
        assert(stored@ =~= refreshed(before, fresh@, 0));
        assert(indices@ =~= input.indices_of(input.emitted(0)));
        let none = input.emitted(0).len() as int;
        assert(none * bs == 0) by (nonlinear_arith)
            requires
                none == 0,
        ;
        assert(data@ =~= input.data_of(input.emitted(0)));
        assert(blocks_view(kept@) =~= input.kept(0));
    }
    while s < slots.len()
        invariant
            0 <= s <= slots@.len(),
            page_size > 0,
            block_size > 0,
            subs == page_size / block_size,
            ps == page_size,
            bs == block_size,
            lens == slot_lens(slots@),
            fresh@.len() == blocks_before(lens, ps, bs, slots@.len() as int),
            input == delta_input(slots@, fresh@, before, prev@, golden@, ps, bs),
            input.wf(),
            g == blocks_before(lens, ps, bs, s as int),
            stored@ == refreshed(before, fresh@, g as int),
            indices@ == input.indices_of(input.emitted(g as int)),
            data@ == input.data_of(input.emitted(g as int)),
            blocks_view(kept@) == input.kept(g as int),
        decreases slots@.len() - s,
    {
        let bytes: &[u8] = slots[s].bytes;
        let len: usize = bytes.len();
        proof {
            assert(lens[s as int] == len);
            blocks_fit(len as int, ps, bs);
            blocks_before_bounds(lens, ps, bs, s + 1, slots@.len() as int);
            assert(fresh@.len() == fresh.len());
        }
        let ghost first = g as int;
        let blocks: usize = (len / page_size) * subs;
        let mut l: usize = 0;
        while l < blocks
            invariant
                0 <= l <= blocks,
                page_size > 0,
                block_size > 0,
                ps == page_size,
                bs == block_size,
                s < slots@.len(),
                bytes == slots@[s as int].bytes,
                len == bytes@.len(),
                blocks == blocks_in(len as int, ps, bs),
                blocks * bs <= len,
                first == blocks_before(slot_lens(slots@), ps, bs, s as int),
                first + blocks <= fresh@.len() <= usize::MAX,
                g == first + l,
                input == delta_input(slots@, fresh@, before, prev@, golden@, ps, bs),
                input.wf(),
                stored@ == refreshed(before, fresh@, g as int),
                indices@ == input.indices_of(input.emitted(g as int)),
                data@ == input.data_of(input.emitted(g as int)),
                blocks_view(kept@) == input.kept(g as int),
            decreases blocks - l,
        {
            proof {
                block_entry(slots@, ps, bs, slots@.len() as int, s as int, l as int);
                assert(input.blocks[g as int] == block_at(bytes@, bs, l as int));
                assert(input.local[g as int] == l);
            }
            if let Some(hash) = fresh[g] {
                if g < stored.len() && hash != stored[g] {
                    assert(input.changed(g as int));
                    proof {
                        assert(0 <= l * bs && (l + 1) * bs <= len && (l + 1) * bs == l * bs + bs)
                            by (nonlinear_arith)
                            requires
                                l + 1 <= blocks,
                                blocks * bs <= len,
                                bs > 0,
                                l >= 0,
                        ;
                        lemma_fundamental_div_mod(golden@.len() as int, bs);
                        assert(0 <= g * bs && (g + 1) * bs <= golden@.len() && (g + 1) * bs == g
                            * bs + bs) by (nonlinear_arith)
                            requires
                                0 <= g,
                                g + 1 <= golden@.len() as int / bs,
                                bs * (golden@.len() as int / bs) <= golden@.len(),
                                bs > 0,
                        ;
                        assert(golden@.len() == golden.len());
                    }
                    let offset: usize = l * block_size;
                    let block: &[u8] = slice_subrange(bytes, offset, offset + block_size);
                    let key: u32 = to_low32(g);
                    let base: &[u8] = match prev.get(&key) {
                        Some(kept_block) => {
                            assert(prev@.contains_key(key));
                            kept_block.as_slice()
                        },
                        None => {
                            let golden_offset: usize = g * block_size;
                            slice_subrange(golden, golden_offset, golden_offset + block_size)
                        },
                    };
                    assert(base@ == input.base(g as int));
                    let (mut out, same) = xor_blocks(block, base);
                    if !same {
                        proof {
                            lemma_data_push(input, input.emitted(g as int), g as int);
                        }
                        data.append(&mut out);
                        indices.push(to_low32(l));
                        assert(indices@ =~= input.indices_of(input.emitted(g + 1)));
                    }
                    stored.set(g, hash);
                    let ghost kept_before = kept@;
                    let copy: Vec<u8> = slice_to_vec(block);
                    let ghost copied = copy;
                    kept.insert(key, copy);
                    assert(blocks_view(kept@) =~= blocks_view(kept_before).insert(key, copied@));
                }
            }
            g = g + 1;
            l = l + 1;
            assert(stored@ =~= refreshed(before, fresh@, g as int));
        }
        s = s + 1;
    }
    DeltaBlocks { indices, data, kept }
}

/// The two bytes of `x`, low byte first.
pub open spec fn le16(x: u16) -> Seq<u8> {
    seq![(x % 256) as u8, (x / 256) as u8]
}

/// The four bytes of `x`, low byte first.
pub open spec fn le32(x: u32) -> Seq<u8> {
    seq![
        (x % 256) as u8,
        (x / 256 % 256) as u8,
        (x / 65536 % 256) as u8,
        (x / 16777216) as u8,
    ]
}

/// The number whose four bytes stand in `bytes` from `at` on, low byte first.
pub open spec fn le32_at(bytes: Seq<u8>, at: int) -> int {
    bytes[at] + 256 * bytes[at + 1] + 65536 * bytes[at + 2] + 16777216 * bytes[at + 3]
}

/// The format's version.
pub const PACKED_VERSION: u16 = 1;

/// Bytes in the header of a packed blob.
pub const PACKED_HEADER_LEN: usize = 20;

/// The header: the magic `FCBK`, the version, the block size, the number of blocks and six reserved
/// bytes.
pub open spec fn packed_header(block_size: u32, block_count: u32) -> Seq<u8> {
    seq![0x46u8, 0x43u8, 0x42u8, 0x4bu8] + le16(PACKED_VERSION) + le32(block_size) + le32(
        block_count,
    ) + seq![0u8, 0u8, 0u8, 0u8, 0u8, 0u8]
}

/// The index table: four bytes for each index.
pub open spec fn packed_table(indices: Seq<u32>) -> Seq<u8> {
    Seq::new(4 * indices.len(), |i: int| le32(indices[i / 4])[i % 4])
}

/// A packed blob: header, index table, block data. The header counts blocks in 32 bits.
pub open spec fn packed(block_size: u32, indices: Seq<u32>, data: Seq<u8>) -> Seq<u8> {
    packed_header(block_size, low32(indices.len() as int)) + packed_table(indices) + data
}

/// What a reader takes out of a blob: block size, indices and block data. `None` where the header
/// is not one of this format, or the blob too short for its table.
pub open spec fn unpacked(blob: Seq<u8>) -> Option<(int, Seq<int>, Seq<u8>)> {
    let count = le32_at(blob, 10);
    if blob.len() < PACKED_HEADER_LEN || blob.take(6) != seq![0x46u8, 0x43u8, 0x42u8, 0x4bu8]
        + le16(PACKED_VERSION) || blob.len() < PACKED_HEADER_LEN + 4 * count {
        None
    } else {
        Some(
            (
                le32_at(blob, 6),
                Seq::new(count as nat, |i: int| le32_at(blob, PACKED_HEADER_LEN + 4 * i)),
                blob.skip(PACKED_HEADER_LEN + 4 * count),
            ),
        )
    }
}

proof fn lemma_le32_reads_back(bytes: Seq<u8>, at: int, x: u32)
    requires
        0 <= at,
        at + 4 <= bytes.len(),
        bytes[at] == le32(x)[0],
        bytes[at + 1] == le32(x)[1],
        bytes[at + 2] == le32(x)[2],
        bytes[at + 3] == le32(x)[3],
    ensures
        le32_at(bytes, at) == x,
{
}

/// Reading a packed blob gives back what was packed, as long as the number of blocks fits the
/// header's 32 bits.
pub proof fn unpack_inverts_pack(block_size: u32, indices: Seq<u32>, data: Seq<u8>)
    requires
        indices.len() < 0x1_0000_0000,
    ensures
        unpacked(packed(block_size, indices, data)) == Some(
            (block_size as int, indices.map_values(|i: u32| i as int), data),
        ),
{
    let blob = packed(block_size, indices, data);
    let count = indices.len() as int;
    let header = packed_header(block_size, low32(count));
    let table = packed_table(indices);
    assert(header.len() == 20 && table.len() == 4 * count);
    assert forall|i: int| 0 <= i < 20 implies blob[i] == header[i] by {}
    lemma_le32_reads_back(blob, 6, block_size);
    lemma_le32_reads_back(blob, 10, low32(count));
    assert(blob.take(6) =~= seq![0x46u8, 0x43u8, 0x42u8, 0x4bu8] + le16(PACKED_VERSION));
    let read = Seq::new(count as nat, |i: int| le32_at(blob, PACKED_HEADER_LEN + 4 * i));
    assert forall|i: int| 0 <= i < count implies read[i] == indices[i] as int by {
        assert forall|j: int| 0 <= j < 4 implies #[trigger] blob[20 + 4 * i + j] == le32(
            indices[i],
        )[j] by {
            assert((4 * i + j) / 4 == i && (4 * i + j) % 4 == j);
            assert(blob[20 + 4 * i + j] == table[4 * i + j]);
        }
        assert(blob[20 + 4 * i] == blob[20 + 4 * i + 0]);
        lemma_le32_reads_back(blob, 20 + 4 * i, indices[i]);
    }
    assert(read =~= indices.map_values(|i: u32| i as int));
    assert(blob.skip(20 + 4 * count) =~= data);
}

fn push_le32(out: &mut Vec<u8>, x: u32)
    ensures
        final(out)@ == old(out)@ + le32(x),
{
    out.push((x % 256) as u8);
    out.push((x / 256 % 256) as u8);
    out.push((x / 65536 % 256) as u8);
    out.push((x / 16777216) as u8);
    assert(out@ =~= old(out)@ + le32(x));
}

/// Lays out block indices and block data as a packed blob.
pub fn pack(block_size: u32, indices: &Vec<u32>, data: &Vec<u8>) -> (blob: Vec<u8>)
    ensures
        blob@ == packed(block_size, indices@, data@),
{
    let block_count: u32 = to_low32(indices.len());
    let mut blob: Vec<u8> = Vec::new();
    blob.push(0x46);
    blob.push(0x43);
    blob.push(0x42);
    blob.push(0x4b);
    blob.push((PACKED_VERSION % 256) as u8);
    blob.push((PACKED_VERSION / 256) as u8);
    push_le32(&mut blob, block_size);
    push_le32(&mut blob, block_count);
    let mut reserved: usize = 0;
    let ghost start = blob@;
    while reserved < 6
        invariant
            0 <= reserved <= 6,
            blob@ == start + Seq::new(reserved as nat, |i: int| 0u8),
        decreases 6 - reserved,
    {
        blob.push(0);
        reserved = reserved + 1;
        assert(blob@ =~= start + Seq::new(reserved as nat, |i: int| 0u8));
    }
    let ghost header = packed_header(block_size, block_count);
    assert(blob@ =~= header);
    let mut k: usize = 0;
    while k < indices.len()
        invariant
            0 <= k <= indices@.len(),
            blob@ == header + packed_table(indices@.take(k as int)),
        decreases indices@.len() - k,
    {
        push_le32(&mut blob, indices[k]);
        proof {
            let shorter = indices@.take(k as int);
            let longer = indices@.take(k + 1);
            assert forall|i: int| 0 <= i < 4 * (k + 1) implies #[trigger] packed_table(longer)[i]
                == (packed_table(shorter) + le32(indices@[k as int]))[i] by {
                if i < 4 * k {
                    assert(longer[i / 4] == shorter[i / 4]);
                } else {
                    assert(i / 4 == k && i % 4 == i - 4 * k);
                }
            }
            assert(packed_table(longer) =~= packed_table(shorter) + le32(indices@[k as int]));
            assert(blob@ =~= header + packed_table(longer));
        }
        k = k + 1;
    }
    assert(indices@.take(k as int) =~= indices@);
    blob.extend_from_slice(data.as_slice());
    assert(blob@ =~= packed(block_size, indices@, data@));
    blob
}

/// Exclusive-or undoes itself: a block comes back from its difference to a base and the base.
pub proof fn xor_restores(block: Seq<u8>, base: Seq<u8>)
    requires
        block.len() == base.len(),
    ensures
        xored(xored(block, base), base) == block,
{
    assert forall|i: int| 0 <= i < block.len() implies #[trigger] xored(
        xored(block, base),
        base,
    )[i] == block[i] by {
        let x = block[i];
        let y = base[i];
        assert((x ^ y) ^ y == x) by (bit_vector);
    }
    assert(xored(xored(block, base), base) =~= block);
}

impl DeltaInput {
    /// A delta carries exactly the blocks that changed and differ from their base, each once and in
    /// order.
    pub proof fn emitted_is_exact(self, n: int)
        requires
            0 <= n,
        ensures
            self.emitted(n).len() <= n,
            forall|i: int, j: int|
                0 <= i < j < self.emitted(n).len() ==> self.emitted(n)[i] < self.emitted(n)[j],
            forall|g: int| #[trigger]
                self.emitted(n).contains(g) <==> 0 <= g < n && self.changed(g) && self.blocks[g]
                    != self.base(g),
        decreases n,
    {
        if n > 0 {
            self.emitted_is_exact(n - 1);
            let shorter = self.emitted(n - 1);
            let longer = self.emitted(n);
            assert forall|i: int| 0 <= i < shorter.len() implies #[trigger] shorter[i] < n - 1 by {
                assert(shorter.contains(shorter[i]));
            }
            if self.changed(n - 1) && self.blocks[n - 1] != self.base(n - 1) {
                assert(longer == shorter.push(n - 1));
                assert forall|g: int| #[trigger] longer.contains(g) <==> shorter.contains(g) || g
                    == n - 1 by {
                    assert(longer[longer.len() - 1] == n - 1);
                    if shorter.contains(g) {
                        let i = choose|i: int| 0 <= i < shorter.len() && shorter[i] == g;
                        assert(longer[i] == g);
                    }
                    if longer.contains(g) {
                        let i = choose|i: int| 0 <= i < longer.len() && longer[i] == g;
                        if i < shorter.len() {
                            assert(shorter[i] == g);
                        }
                    }
                }
            }
        }
    }

    /// A base is as long as a block, for every block whose hash changed.
    pub proof fn base_is_whole(self, g: int)
        requires
            self.wf(),
            0 <= g < self.blocks.len(),
            self.changed(g),
        ensures
            self.base(g).len() == self.block_size,
    {
        if !self.prev.contains_key(self.key(g)) {
            let bs = self.block_size;
            lemma_fundamental_div_mod(self.golden.len() as int, bs);
            assert(0 <= g * bs && (g + 1) * bs <= self.golden.len() && (g + 1) * bs == g * bs + bs)
                by (nonlinear_arith)
                requires
                    0 <= g,
                    g + 1 <= self.golden.len() as int / bs,
                    bs * (self.golden.len() as int / bs) <= self.golden.len(),
                    bs > 0,
            ;
        }
    }

    /// Entry `i` of the block data, exclusive-or'd with the base of the block it is for, is that
    /// block.
    pub proof fn entry_restores_block(self, i: int)
        requires
            self.wf(),
            0 <= i < self.emitted(self.fresh.len() as int).len(),
        ensures
            ({
                let carried = self.emitted(self.fresh.len() as int);
                xored(
                    block_at(self.data_of(carried), self.block_size, i),
                    self.base(carried[i]),
                ) == self.blocks[carried[i]]
            }),
    {
        let n = self.fresh.len() as int;
        let carried = self.emitted(n);
        let bs = self.block_size;
        let count = carried.len() as int;
        self.emitted_is_exact(n);
        assert(carried.contains(carried[i]));
        let g = carried[i];
        self.base_is_whole(g);
        assert(self.blocks[g].len() == bs);
        assert(0 <= i * bs && (i + 1) * bs <= count * bs && (i + 1) * bs == i * bs + bs)
            by (nonlinear_arith)
            requires
                0 <= i,
                i + 1 <= count,
                bs > 0,
        ;
        let entry = block_at(self.data_of(carried), bs, i);
        assert forall|j: int| 0 <= j < bs implies #[trigger] entry[j] == xored(
            self.blocks[g],
            self.base(g),
        )[j] by {
            lemma_fundamental_div_mod_converse(i * bs + j, bs, i, j);
        }
        assert(entry =~= xored(self.blocks[g], self.base(g)));
        xor_restores(self.blocks[g], self.base(g));
    }

    /// As long as 32 bits number the blocks, the kept blocks are exactly those that changed, each
    /// as it stands in memory.
    pub proof fn kept_is_exact(self, n: int)
        requires
            0 <= n <= self.blocks.len(),
            self.blocks.len() <= 0x1_0000_0000,
        ensures
            forall|g: int|
                0 <= g < n ==> {
                    &&& self.kept(n).contains_key(#[trigger] self.key(g)) <==> self.changed(g)
                    &&& self.changed(g) ==> self.kept(n)[self.key(g)] == self.blocks[g]
                },
            forall|g: int|
                n <= g < self.blocks.len() ==> !self.kept(n).contains_key(#[trigger] self.key(g)),
        decreases n,
    {
        if n > 0 {
            self.kept_is_exact(n - 1);
            assert forall|g: int| 0 <= g < n implies {
                &&& self.kept(n).contains_key(#[trigger] self.key(g)) <==> self.changed(g)
                &&& self.changed(g) ==> self.kept(n)[self.key(g)] == self.blocks[g]
            } by {
                if g < n - 1 {
                    assert(self.key(g) != self.key(n - 1));
                }
            }
            assert forall|g: int|
                n <= g < self.blocks.len() implies !self.kept(n).contains_key(
                #[trigger] self.key(g),
            ) by {
                assert(self.key(n - 1) != self.key(g));
            }
        }
    }
}

/// What a reader exclusive-ors the entry for the block at `place` with: the block it kept from the
/// checkpoint before, or else the golden image's block at that place.
pub open spec fn reader_base(
    prev: Map<u32, Seq<u8>>,
    golden: Seq<u8>,
    block_size: int,
    place: int,
) -> Seq<u8> {
    if prev.contains_key(low32(place)) {
        prev[low32(place)]
    } else {
        block_at(golden, block_size, place)
    }
}

/// The image that a reader has once the first `n` entries of a delta are applied to `image`: entry
/// `i` puts the block that it stands for at `places[i]`.
pub open spec fn applied(
    image: Seq<Seq<u8>>,
    places: Seq<int>,
    data: Seq<u8>,
    prev: Map<u32, Seq<u8>>,
    golden: Seq<u8>,
    block_size: int,
    n: int,
) -> Seq<Seq<u8>>
    decreases n,
{
    if n <= 0 {
        image
    } else {
        applied(image, places, data, prev, golden, block_size, n - 1).update(
            places[n - 1],
            xored(
                block_at(data, block_size, n - 1),
                reader_base(prev, golden, block_size, places[n - 1]),
            ),
        )
    }
}

proof fn lemma_applied(input: DeltaInput, image: Seq<Seq<u8>>, n: int)
    requires
        input.wf(),
        image.len() == input.blocks.len(),
        input.blocks.len() < 0x1_0000_0000,
        0 <= n <= input.emitted(input.fresh.len() as int).len(),
    ensures
        ({
            let carried = input.emitted(input.fresh.len() as int);
            let out = applied(
                image,
                carried,
                input.data_of(carried),
                input.prev,
                input.golden,
                input.block_size,
                n,
            );
            &&& out.len() == image.len()
            &&& forall|g: int|
                0 <= g < image.len() ==> #[trigger] out[g] == if carried.take(n).contains(g) {
                    input.blocks[g]
                } else {
                    image[g]
                }
        }),
    decreases n,
{
    let carried = input.emitted(input.fresh.len() as int);
    if n > 0 {
        lemma_applied(input, image, n - 1);
        input.emitted_is_exact(input.fresh.len() as int);
        let at = carried[n - 1];
        assert(carried.contains(at));
        input.entry_restores_block(n - 1);
        assert(carried.take(n) =~= carried.take(n - 1).push(at));
        let out = applied(
            image,
            carried,
            input.data_of(carried),
            input.prev,
            input.golden,
            input.block_size,
            n,
        );
        assert forall|g: int| 0 <= g < image.len() implies #[trigger] out[g] == if carried.take(
            n,
        ).contains(g) {
            input.blocks[g]
        } else {
            image[g]
        } by {
            if g == at {
                assert(carried.take(n)[n - 1] == at);
            } else {
                let shorter = carried.take(n - 1);
                let longer = carried.take(n);
                if shorter.contains(g) {
                    let i = choose|i: int| 0 <= i < shorter.len() && shorter[i] == g;
                    assert(longer[i] == g);
                }
                if longer.contains(g) {
                    let i = choose|i: int| 0 <= i < longer.len() && longer[i] == g;
                    assert(shorter[i] == g);
                }
            }
        }
    } else {
        assert(carried.take(0).len() == 0);
    }
}

proof fn lemma_applied_to_end(input: DeltaInput, image: Seq<Seq<u8>>)
    requires
        input.wf(),
        image.len() == input.blocks.len(),
        input.blocks.len() < 0x1_0000_0000,
        forall|g: int|
            0 <= g < input.blocks.len() && !(input.changed(g) && input.blocks[g] != input.base(g))
                ==> #[trigger] image[g] == input.blocks[g],
    ensures
        ({
            let carried = input.emitted(input.fresh.len() as int);
            applied(
                image,
                carried,
                input.data_of(carried),
                input.prev,
                input.golden,
                input.block_size,
                carried.len() as int,
            ) == input.blocks
        }),
{
    let n = input.fresh.len() as int;
    let carried = input.emitted(n);
    input.emitted_is_exact(n);
    lemma_applied(input, image, carried.len() as int);
    assert(carried.take(carried.len() as int) =~= carried);
    let out = applied(
        image,
        carried,
        input.data_of(carried),
        input.prev,
        input.golden,
        input.block_size,
        carried.len() as int,
    );
    assert forall|g: int| 0 <= g < image.len() implies #[trigger] out[g] == input.blocks[g] by {
        if !carried.contains(g) {
            assert(image[g] == input.blocks[g]);
        }
    }
    assert(out =~= input.blocks);
}

/// A packed delta read back gives the carried blocks' indices and data, and the data, applied to
/// the image of the checkpoint before at the blocks' places, gives guest memory as it stands, where
/// - 32 bits number the blocks,
/// - the reader has the kept blocks and the golden image that the delta was made with,
/// - no block differs from the image unless its hash changed, and
/// - no block that changed has come back to its base, unless the image has it so too: such a block
///   is not carried.
pub proof fn delta_restores_memory(input: DeltaInput, image: Seq<Seq<u8>>)
    requires
        input.wf(),
        input.block_size < 0x1_0000_0000,
        image.len() == input.blocks.len(),
        input.blocks.len() < 0x1_0000_0000,
        forall|g: int|
            0 <= g < input.blocks.len() && !(input.changed(g) && input.blocks[g] != input.base(g))
                ==> #[trigger] image[g] == input.blocks[g],
    ensures
        ({
            let carried = input.emitted(input.fresh.len() as int);
            let indices = input.indices_of(carried);
            let data = input.data_of(carried);
            let read = indices.map_values(|i: u32| i as int);
            &&& unpacked(packed(low32(input.block_size), indices, data)) == Some(
                (input.block_size, read, data),
            )
            &&& applied(
                image,
                carried,
                data,
                input.prev,
                input.golden,
                input.block_size,
                carried.len() as int,
            ) == input.blocks
        }),
{
    let n = input.fresh.len() as int;
    let carried = input.emitted(n);
    assert(carried.len() < 0x1_0000_0000) by {
        input.emitted_is_exact(n);
    }
    unpack_inverts_pack(low32(input.block_size), input.indices_of(carried), input.data_of(carried));
    lemma_applied_to_end(input, image);
}

impl DeltaInput {
    /// As long as 32 bits number the blocks, entry `i` of the index table is the place of its block
    /// inside the block's slot.
    pub proof fn table_entry_is_local(self, i: int)
        requires
            self.wf(),
            self.blocks.len() <= 0x1_0000_0000,
            0 <= i < self.emitted(self.fresh.len() as int).len(),
        ensures
            ({
                let carried = self.emitted(self.fresh.len() as int);
                &&& 0 <= carried[i] < self.blocks.len()
                &&& self.indices_of(carried)[i] == self.local[carried[i]]
            }),
    {
        let carried = self.emitted(self.fresh.len() as int);
        self.emitted_is_exact(self.fresh.len() as int);
        assert(carried.contains(carried[i]));
        assert(0 <= self.local[carried[i]] <= carried[i]);
    }

    /// The fresh hashes are those of the blocks.
    pub open spec fn hashes_are_fresh(self) -> bool {
        forall|g: int|
            0 <= g < self.fresh.len() && (#[trigger] self.fresh[g]) is Some ==> self.fresh[g]
                == Some(xxh3_of(self.blocks[g]))
    }

    /// The stored hash of every block that the checkpoint before kept is that of the kept block.
    pub open spec fn hashes_match_prev(self) -> bool {
        forall|g: int|
            0 <= g < self.blocks.len() && g < self.stored.len() && self.prev.contains_key(
                #[trigger] self.key(g),
            ) ==> self.stored[g] == xxh3_of(self.prev[self.key(g)])
    }

    /// The blocks among the first `n` that the blob carries, each under its key: what a reader has
    /// of them.
    pub open spec fn received(self, n: int) -> Map<u32, Seq<u8>>
        decreases n,
    {
        if n <= 0 {
            Map::empty()
        } else if self.changed(n - 1) && self.blocks[n - 1] != self.base(n - 1) {
            self.received(n - 1).insert(self.key(n - 1), self.blocks[n - 1])
        } else {
            self.received(n - 1)
        }
    }

    proof fn lemma_received(self, n: int)
        requires
            0 <= n <= self.blocks.len(),
            self.blocks.len() <= 0x1_0000_0000,
        ensures
            forall|g: int|
                0 <= g < n ==> {
                    &&& self.received(n).contains_key(#[trigger] self.key(g)) <==> self.changed(g)
                        && self.blocks[g] != self.base(g)
                    &&& self.received(n).contains_key(self.key(g)) ==> self.received(n)[self.key(g)]
                        == self.blocks[g]
                },
            forall|g: int|
                n <= g < self.blocks.len() ==> !self.received(n).contains_key(
                    #[trigger] self.key(g),
                ),
        decreases n,
    {
        if n > 0 {
            self.lemma_received(n - 1);
            assert forall|g: int| 0 <= g < n implies {
                &&& self.received(n).contains_key(#[trigger] self.key(g)) <==> self.changed(g)
                    && self.blocks[g] != self.base(g)
                &&& self.received(n).contains_key(self.key(g)) ==> self.received(n)[self.key(g)]
                    == self.blocks[g]
            } by {
                if g < n - 1 {
                    assert(self.key(g) != self.key(n - 1));
                }
            }
            assert forall|g: int|
                n <= g < self.blocks.len() implies !self.received(n).contains_key(
                #[trigger] self.key(g),
            ) by {
                assert(self.key(n - 1) != self.key(g));
            }
        }
    }

    /// As long as 32 bits number the blocks, the kept blocks match the stored hashes again after a
    /// delta.
    pub proof fn kept_matches_stored(self)
        requires
            self.fresh.len() == self.blocks.len(),
            self.hashes_are_fresh(),
            self.blocks.len() <= 0x1_0000_0000,
        ensures
            (DeltaInput {
                stored: refreshed(self.stored, self.fresh, self.fresh.len() as int),
                prev: self.kept(self.fresh.len() as int),
                ..self
            }).hashes_match_prev(),
    {
        let n = self.fresh.len() as int;
        let next = DeltaInput {
            stored: refreshed(self.stored, self.fresh, n),
            prev: self.kept(n),
            ..self
        };
        self.kept_is_exact(n);
        assert forall|g: int|
            0 <= g < next.blocks.len() && g < next.stored.len() && next.prev.contains_key(
                #[trigger] next.key(g),
            ) implies next.stored[g] == xxh3_of(next.prev[next.key(g)]) by {
            assert(next.key(g) == self.key(g));
            assert(self.changed(g));
        }
    }

    /// A reader that keeps only the blocks it received has the same bases for the next delta as
    /// the sender, as long as 32 bits number the blocks and the sender's kept blocks match its
    /// stored hashes. A changed block that the blob leaves out equals the golden image.
    pub proof fn received_blocks_suffice(self, g: int)
        requires
            self.fresh.len() == self.blocks.len(),
            self.hashes_are_fresh(),
            self.hashes_match_prev(),
            0 <= g < self.blocks.len(),
            self.blocks.len() <= 0x1_0000_0000,
        ensures
            reader_base(
                self.received(self.fresh.len() as int),
                self.golden,
                self.block_size,
                g,
            ) == reader_base(
                self.kept(self.fresh.len() as int),
                self.golden,
                self.block_size,
                g,
            ),
    {
        let n = self.fresh.len() as int;
        self.kept_is_exact(n);
        self.lemma_received(n);
        assert(self.key(g) == low32(g));
    }
}

impl DeltaInput {
    /// No more blocks are carried than changed, and as many exactly where every changed block
    /// differs from its base.
    pub proof fn carried_count_bounds(self, n: int)
        ensures
            0 <= self.emitted(n).len() <= changed_count(self.stored, self.fresh, n),
            self.emitted(n).len() == changed_count(self.stored, self.fresh, n) <==> forall|g: int|
                0 <= g < n && #[trigger] self.changed(g) ==> self.blocks[g] != self.base(g),
        decreases n,
    {
        if n > 0 {
            self.carried_count_bounds(n - 1);
            assert(self.changed(n - 1) == changed_at(self.stored, self.fresh, n - 1));
        }
    }

    /// As long as 32 bits number the blocks, as many blocks are kept as changed.
    pub proof fn kept_count(self, n: int)
        requires
            0 <= n <= self.blocks.len() <= 0x1_0000_0000,
        ensures
            self.kept(n).dom().finite(),
            self.kept(n).len() == changed_count(self.stored, self.fresh, n),
        decreases n,
    {
        if n > 0 {
            self.kept_count(n - 1);
            self.kept_is_exact(n - 1);
            assert(!self.kept(n - 1).contains_key(self.key(n - 1)));
        }
    }

    /// Where nothing changed, nothing is carried, nothing is kept and the stored hashes stay.
    pub proof fn nothing_changed(self, n: int)
        requires
            0 <= n <= self.fresh.len(),
            forall|g: int| 0 <= g < n ==> !#[trigger] self.changed(g),
        ensures
            self.emitted(n).len() == 0,
            self.kept(n) == Map::<u32, Seq<u8>>::empty(),
            refreshed(self.stored, self.fresh, n) == self.stored,
        decreases n,
    {
        if n > 0 {
            self.nothing_changed(n - 1);
            assert(!self.changed(n - 1));
        }
        assert forall|g: int| 0 <= g < self.stored.len() implies #[trigger] refreshed(
            self.stored,
            self.fresh,
            n,
        )[g] == self.stored[g] by {
            if g < n {
                assert(!self.changed(g));
            }
        }
        assert(refreshed(self.stored, self.fresh, n) =~= self.stored);
    }
}

} // verus!
