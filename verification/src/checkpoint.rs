//! Checkpoints of guest memory: the golden image they start from, and the deltas that follow.

use crate::bitmap::{bits, set_count};
use crate::delta::{
    bit_at_place_is_change, block_at, block_place, block_sequence_lens, changed_count, delta_bits,
    dirty_block_hashes, dirty_blocks, fresh_hashes, guest_blocks, hash_blocks, hashes_of,
    local_indices, mark_changed, marks_count_changes, refreshed,
};
use crate::error::{prefixed, VmmError};
use crate::memory::{blocks_before, blocks_in, slot_lens, words_before, MemSlot};
use crate::outside::{lz4_frame, lz4_frame_content, Lz4Failure};
use crate::pack::{
    applied, block_entry, blocks_view, collect_changed, delta_input, delta_input_wf,
    delta_restores_memory, low32, pack, packed, to_low32, unpacked, DeltaBlocks, DeltaInput,
    PACKED_HEADER_LEN,
};
use crate::scan::{span_lens, DirtyScan, KvmScan, SlotSpan};
use crate::vmm::{Vmm, MAX_PREV_BLOCKS};
use std::collections::HashMap;
use vstd::prelude::*;
use vstd::string::*;

verus! {

broadcast use vstd::std_specs::hash::group_hash_axioms;

/// Why the golden image could not be mapped.
#[derive(Debug, PartialEq, Eq)]
pub enum GoldenError {
    /// The file could not be opened.
    Open(String),
    /// The file's length could not be read.
    Stat(String),
    /// The file could not be mapped.
    Mmap,
}

impl GoldenError {
    /// The text that the error is reported with.
    pub open spec fn text(self) -> Seq<char> {
        match self {
            GoldenError::Open(e) => "open golden: "@ + e@,
            GoldenError::Stat(e) => "stat golden: "@ + e@,
            GoldenError::Mmap => "mmap golden failed"@,
        }
    }

    /// Renders the error.
    pub fn message(&self) -> (message: String)
        ensures
            message@ == self.text(),
    {
        match self {
            GoldenError::Open(e) => prefixed("open golden: ", e),
            GoldenError::Stat(e) => prefixed("stat golden: ", e),
            GoldenError::Mmap => "mmap golden failed".to_owned(),
        }
    }
}

/// The text of the error for a delta without stored hashes.
pub const NO_HASHES: &'static str = "delta_hashes not initialized — call init_delta_hashes first";

/// The text of the error for a packed delta without a golden image.
pub const NO_GOLDEN: &'static str = "golden_base not available for XOR";

/// A packed delta, compressed.
#[derive(Debug, PartialEq, Eq)]
pub struct DirtyDeltaPacked {
    /// The LZ4 frame around the packed blob.
    pub blob: Vec<u8>,
    /// Number of blocks in the blob.
    pub block_count: u32,
    /// Length of the blob before compression.
    pub raw_size: u64,
    /// Whether blocks of the checkpoint before were at hand to exclusive-or with.
    pub is_p_frame: bool,
}

/// Whether `error` is an internal error with this text.
pub open spec fn is_internal(error: VmmError, text: Seq<char>) -> bool {
    error matches VmmError::InternalError(message) && message@ == text
}

/// The text of a failed compression.
pub open spec fn compression_text(failure: Lz4Failure) -> Seq<char> {
    match failure {
        Lz4Failure::Write(e) => "lz4 compress write: "@ + e@,
        Lz4Failure::Finish(e) => "lz4 compress finish: "@ + e@,
    }
}

/// The blocks that are kept for the next checkpoint: all that changed, or none where they are more
/// than the cap.
pub open spec fn capped(kept: Map<u32, Seq<u8>>) -> Map<u32, Seq<u8>> {
    if kept.len() <= MAX_PREV_BLOCKS {
        kept
    } else {
        Map::empty()
    }
}

/// The hash of every block of the slots that lies in a page set in `dirty`.
pub open spec fn slot_hashes(
    slots: Seq<MemSlot<'_>>,
    dirty: Seq<u64>,
    page_size: int,
    block_size: int,
) -> Seq<Option<u64>> {
    fresh_hashes(
        guest_blocks(slots, page_size, block_size, slots.len() as int),
        dirty_blocks(slots, dirty, page_size, block_size, slots.len() as int),
    )
}

/// Where the slots lie, for a scan over them.
pub fn slot_spans(slots: &Vec<MemSlot<'_>>) -> (spans: Vec<SlotSpan>)
    ensures
        spans@.len() == slots@.len(),
        forall|k: int|
            0 <= k < slots@.len() ==> (#[trigger] spans@[k]).base_addr == slots@[k].base_addr
                && spans@[k].len == slots@[k].bytes@.len(),
        span_lens(spans@) == slot_lens(slots@),
{
    let mut spans: Vec<SlotSpan> = Vec::new();
    let mut k: usize = 0;
    while k < slots.len()
        invariant
            0 <= k <= slots@.len(),
            spans@.len() == k,
            forall|i: int|
                0 <= i < k ==> (#[trigger] spans@[i]).base_addr == slots@[i].base_addr
                    && spans@[i].len == slots@[i].bytes@.len(),
        decreases slots@.len() - k,
    {
        spans.push(SlotSpan { base_addr: slots[k].base_addr, len: slots[k].bytes.len() });
        k = k + 1;
    }
    assert(span_lens(spans@) =~= slot_lens(slots@));
    spans
}

impl<'a> Vmm<'a> {
    /// Ends a scan for dirty pages: the pages that are resident and were written, slot after slot.
    pub fn get_dirty_memory(&self, scan: DirtyScan) -> (res: Result<Vec<u64>, VmmError>)
        requires
            scan.wf(),
            scan@.is_over(),
        ensures
            match scan.failure {
                Some(e) => res == Err::<Vec<u64>, VmmError>(e),
                None => res matches Ok(words) && bits(words@) == scan@.done && words@.len()
                    == words_before(
                    span_lens(scan.spans@),
                    scan.page_size as int,
                    scan.spans@.len() as int,
                ),
            },
    {
        scan.finish()
    }

    /// Ends a scan for dirty pages that was asked to reset the tracking. The write protection of
    /// the pages is not put back: the bitmap is that of `get_dirty_memory`, and the next scan does
    /// not tell pages written before this one from those written after it.
    pub fn reset_dirty_memory(&self, scan: DirtyScan) -> (res: Result<Vec<u64>, VmmError>)
        requires
            scan.wf(),
            scan@.is_over(),
        ensures
            match scan.failure {
                Some(e) => res == Err::<Vec<u64>, VmmError>(e),
                None => res matches Ok(words) && bits(words@) == scan@.done && words@.len()
                    == words_before(
                    span_lens(scan.spans@),
                    scan.page_size as int,
                    scan.spans@.len() as int,
                ),
            },
    {
        self.get_dirty_memory(scan)
    }

    /// Ends a walk over the hypervisor's dirty log: the logged pages that the guest wrote, in pages
    /// of the host's size.
    pub fn get_kvm_dirty_writes(&self, walk: KvmScan) -> (res: Result<Vec<u64>, VmmError>)
        requires
            walk.wf(),
            walk.scan@.is_over(),
            walk.scan.page_size == self.host_page_size,
        ensures
            match walk.scan.failure {
                Some(e) => res == Err::<Vec<u64>, VmmError>(e),
                None => res matches Ok(words) && bits(words@) == walk.scan@.done && words@.len()
                    == words_before(
                    span_lens(walk.scan.spans@),
                    self.host_page_size as int,
                    walk.scan.spans@.len() as int,
                ),
            },
    {
        walk.scan.finish()
    }

    /// Takes over a golden image that was mapped: its blocks are hashed, and it stays mapped for
    /// deltas. The image it displaces comes back, to be unmapped. Where the mapping failed nothing
    /// changes.
    pub fn init_delta_hashes(&mut self, golden: Result<&'a [u8], GoldenError>) -> (res: Result<
        Option<&'a [u8]>,
        VmmError,
    >)
        requires
            old(self).wf(),
        ensures
            final(self).wf(),
            match golden {
                Ok(image) => {
                    &&& res == Ok::<Option<&'a [u8]>, VmmError>(old(self).golden_base)
                    &&& final(self).delta_hashes@ == hashes_of(
                        image@,
                        old(self).host_page_size as int,
                    )
                    &&& *final(self) == (Vmm {
                        delta_hashes: final(self).delta_hashes,
                        golden_base: Some(image),
                        ..*old(self)
                    })
                },
                Err(e) => {
                    &&& res matches Err(error)
                    &&& is_internal(error, e.text())
                    &&& *final(self) == *old(self)
                },
            },
    {
        match golden {
            Ok(image) => {
                self.delta_hashes = hash_blocks(image, self.host_page_size);
                let displaced = self.golden_base.take();
                self.golden_base = Some(image);
                Ok(displaced)
            },
            Err(e) => Err(VmmError::InternalError(e.message())),
        }
    }

    /// Whether a delta can be made: there are stored hashes to compare with.
    pub fn delta_ready(&self) -> (res: Result<(), VmmError>)
        ensures
            if self.delta_hashes@.len() == 0 {
                res matches Err(error) && is_internal(error, NO_HASHES@)
            } else {
                res is Ok
            },
    {
        if self.delta_hashes.len() == 0 {
            return Err(VmmError::InternalError(NO_HASHES.to_owned()));
        }
        Ok(())
    }

    /// Whether a packed delta can be made: there are stored hashes, and a golden image to
    /// exclusive-or with.
    pub fn packed_delta_ready(&self) -> (res: Result<(), VmmError>)
        ensures
            if self.delta_hashes@.len() == 0 {
                res matches Err(error) && is_internal(error, NO_HASHES@)
            } else if self.golden_base is None {
                res matches Err(error) && is_internal(error, NO_GOLDEN@)
            } else {
                res is Ok
            },
    {
        match self.delta_ready() {
            Err(e) => Err(e),
            Ok(()) => {
                if self.golden_base.is_none() {
                    return Err(VmmError::InternalError(NO_GOLDEN.to_owned()));
                }
                Ok(())
            },
        }
    }

    /// Whether a delta over `slots`, with the pages in `dirty`, is `delta` and leaves the monitor
    /// as `after`: every block in a dirty page whose hash is not the stored one is marked, the
    /// fresh hashes are stored, and nothing else changes.
    pub open spec fn deltas_to(
        self,
        after: Vmm<'a>,
        slots: Seq<MemSlot<'_>>,
        dirty: Seq<u64>,
        page_size: int,
        delta: Seq<u64>,
    ) -> bool {
        let block_size = self.host_page_size as int;
        let fresh = slot_hashes(slots, dirty, page_size, block_size);
        &&& bits(delta) == delta_bits(
            slot_lens(slots),
            self.delta_hashes@,
            fresh,
            page_size,
            block_size,
            slots.len() as int,
        )
        &&& after.delta_hashes@ == refreshed(self.delta_hashes@, fresh, fresh.len() as int)
        &&& after == (Vmm { delta_hashes: after.delta_hashes, ..self })
    }

    /// Finds the blocks that changed since the last checkpoint: every block in a dirty page whose
    /// hash is not the stored one. The fresh hashes are stored for the next call. Without stored
    /// hashes there is nothing to compare with, which comes before a failed scan.
    pub fn get_dirty_delta(
        &mut self,
        page_size: usize,
        slots: &Vec<MemSlot<'_>>,
        dirty: Result<Vec<u64>, VmmError>,
    ) -> (res: Result<Vec<u64>, VmmError>)
        requires
            old(self).wf(),
            dirty matches Ok(words) ==> page_size > 0 && words@.len() == words_before(
                slot_lens(slots@),
                page_size as int,
                slots@.len() as int,
            ),
        ensures
            final(self).wf(),
            if old(self).delta_hashes@.len() == 0 {
                &&& res matches Err(error)
                &&& is_internal(error, NO_HASHES@)
                &&& *final(self) == *old(self)
            } else {
                match dirty {
                    Err(e) => res == Err::<Vec<u64>, VmmError>(e) && *final(self) == *old(self),
                    Ok(words) => res matches Ok(delta) && old(self).deltas_to(
                        *final(self),
                        slots@,
                        words@,
                        page_size as int,
                        delta@,
                    ),
                }
            },
    {
        match self.delta_ready() {
            Err(e) => return Err(e),
            Ok(()) => {},
        }
        let words: Vec<u64> = match dirty {
            Err(e) => return Err(e),
            Ok(words) => words,
        };
        let block_size: usize = self.host_page_size;
        let fresh = dirty_block_hashes(slots, &words, page_size, block_size);
        proof {
            block_sequence_lens(
                slots@,
                words@,
                page_size as int,
                block_size as int,
                slots@.len() as int,
            );
        }
        Ok(mark_changed(&mut self.delta_hashes, slots, &fresh, page_size, block_size))
    }

    /// Forgets the blocks kept from the last checkpoint, so that the next packed delta is a
    /// keyframe: every block that it carries is exclusive-or'd with the golden image.
    pub fn begin_keyframe(&mut self)
        requires
            old(self).wf(),
        ensures
            final(self).wf(),
            final(self).prev_checkpoint_blocks@ == Map::<u32, Vec<u8>>::empty(),
            *final(self) == (Vmm {
                prev_checkpoint_blocks: final(self).prev_checkpoint_blocks,
                ..*old(self)
            }),
    {
        self.prev_checkpoint_blocks = HashMap::new();
    }

    /// Ends a packed delta with what the compression of its blob came to. A frame is handed out
    /// with the blob's figures, and the changed blocks are kept for the next checkpoint as far as
    /// the cap lets them. Where the compression failed, the kept blocks stay those of the
    /// checkpoint before.
    pub fn seal_packed(
        &mut self,
        collected: DeltaBlocks,
        compressed: Result<Vec<u8>, Lz4Failure>,
    ) -> (res: Result<DirtyDeltaPacked, VmmError>)
        requires
            old(self).wf(),
            forall|k: u32| #[trigger]
                collected.kept@.contains_key(k) ==> collected.kept@[k]@.len()
                    == old(self).host_page_size,
            PACKED_HEADER_LEN + 4 * collected.indices@.len() + collected.data@.len() <= usize::MAX,
        ensures
            final(self).wf(),
            match compressed {
                Ok(frame) => {
                    &&& res == Ok::<DirtyDeltaPacked, VmmError>(
                        DirtyDeltaPacked {
                            blob: frame,
                            block_count: low32(collected.indices@.len() as int),
                            raw_size: (PACKED_HEADER_LEN + 4 * low32(
                                collected.indices@.len() as int,
                            ) + collected.data@.len()) as u64,
                            is_p_frame: old(self).prev_checkpoint_blocks@.len() > 0,
                        },
                    )
                    &&& blocks_view(final(self).prev_checkpoint_blocks@) == capped(
                        blocks_view(collected.kept@),
                    )
                    &&& collected.kept@.len() <= 4096 ==> final(self).prev_checkpoint_blocks@
                        == collected.kept@
                    &&& collected.kept@.len() > 4096 ==> final(self).prev_checkpoint_blocks@
                        == Map::<u32, Vec<u8>>::empty()
                    &&& *final(self) == (Vmm {
                        prev_checkpoint_blocks: final(self).prev_checkpoint_blocks,
                        ..*old(self)
                    })
                },
                Err(failure) => {
                    &&& res matches Err(error)
                    &&& is_internal(error, compression_text(failure))
                    &&& *final(self) == *old(self)
                },
            },
    {
        let is_p_frame = self.prev_checkpoint_blocks.len() != 0;
        let block_count: u32 = to_low32(collected.indices.len());
        let raw_size: usize = PACKED_HEADER_LEN + (block_count as usize) * 4 + collected.data.len();
        let frame: Vec<u8> = match compressed {
            Ok(frame) => frame,
            Err(Lz4Failure::Write(e)) => return Err(
                VmmError::InternalError(prefixed("lz4 compress write: ", &e)),
            ),
            Err(Lz4Failure::Finish(e)) => return Err(
                VmmError::InternalError(prefixed("lz4 compress finish: ", &e)),
            ),
        };
        let kept = collected.kept;
        assert(blocks_view(kept@).dom() =~= kept@.dom());
        if kept.len() <= MAX_PREV_BLOCKS {
            self.prev_checkpoint_blocks = kept;
        } else {
            self.prev_checkpoint_blocks = HashMap::new();
            assert(blocks_view(self.prev_checkpoint_blocks@) =~= Map::<u32, Seq<u8>>::empty());
        }
        Ok(DirtyDeltaPacked { blob: frame, block_count, raw_size: raw_size as u64, is_p_frame })
    }

    /// Whether a packed delta over `slots`, with the pages in `dirty`, is `delta` and leaves the
    /// monitor as `after`: the frame holds the changed blocks that differ from their base, the
    /// fresh hashes are stored, the changed blocks are kept up to the cap, and nothing else
    /// changes.
    pub open spec fn packs_to(
        self,
        after: Vmm<'a>,
        slots: Seq<MemSlot<'_>>,
        dirty: Seq<u64>,
        page_size: int,
        delta: DirtyDeltaPacked,
    ) -> bool {
        let input = self.delta_input(slots, dirty, page_size);
        let n = input.fresh.len() as int;
        let carried = input.emitted(n);
        &&& lz4_frame_content(delta.blob@) == Some(
            packed(
                low32(self.host_page_size as int),
                input.indices_of(carried),
                input.data_of(carried),
            ),
        )
        &&& delta.block_count == low32(carried.len() as int)
        &&& delta.raw_size == PACKED_HEADER_LEN + 4 * delta.block_count + input.data_of(
            carried,
        ).len()
        &&& delta.is_p_frame == (input.prev.len() > 0)
        &&& after.delta_hashes@ == refreshed(input.stored, input.fresh, n)
        &&& blocks_view(after.prev_checkpoint_blocks@) == capped(input.kept(n))
        &&& after == (Vmm {
            delta_hashes: after.delta_hashes,
            prev_checkpoint_blocks: after.prev_checkpoint_blocks,
            ..self
        })
    }

    /// Collects the blocks that changed since the last checkpoint, exclusive-ors each with its
    /// base, packs those that differ from it and compresses the blob. The fresh hashes are stored,
    /// and the changed blocks kept, for the next checkpoint. Missing hashes and a missing golden
    /// image are reported, in this order, before a failed scan; with all three at hand a delta
    /// comes back.
    pub fn get_dirty_delta_packed(
        &mut self,
        page_size: usize,
        slots: &Vec<MemSlot<'_>>,
        dirty: Result<Vec<u64>, VmmError>,
    ) -> (res: Result<DirtyDeltaPacked, VmmError>)
        requires
            old(self).wf(),
            dirty matches Ok(words) ==> page_size > 0 && words@.len() == words_before(
                slot_lens(slots@),
                page_size as int,
                slots@.len() as int,
            ),
        ensures
            final(self).wf(),
            if old(self).delta_hashes@.len() == 0 {
                &&& res matches Err(error)
                &&& is_internal(error, NO_HASHES@)
                &&& *final(self) == *old(self)
            } else if old(self).golden_base is None {
                &&& res matches Err(error)
                &&& is_internal(error, NO_GOLDEN@)
                &&& *final(self) == *old(self)
            } else {
                match dirty {
                    Err(e) => res == Err::<DirtyDeltaPacked, VmmError>(e) && *final(self)
                        == *old(self),
                    Ok(words) => res matches Ok(delta) && old(self).packs_to(
                        *final(self),
                        slots@,
                        words@,
                        page_size as int,
                        delta,
                    ),
                }
            },
    {
        match self.packed_delta_ready() {
            Err(e) => return Err(e),
            Ok(()) => {},
        }
        let golden: &[u8] = self.golden_base.unwrap();
        let words: Vec<u64> = match dirty {
            Err(e) => return Err(e),
            Ok(words) => words,
        };
        let block_size: usize = self.host_page_size;
        let ghost input = self.delta_input(slots@, words@, page_size as int);
        let fresh = dirty_block_hashes(slots, &words, page_size, block_size);
        proof {
            block_sequence_lens(
                slots@,
                words@,
                page_size as int,
                block_size as int,
                slots@.len() as int,
            );
            delta_input_wf(
                slots@,
                fresh@,
                self.delta_hashes@,
                self.prev_checkpoint_blocks@,
                golden@,
                page_size as int,
                block_size as int,
            );
            assert(blocks_view(self.prev_checkpoint_blocks@).dom()
                =~= self.prev_checkpoint_blocks@.dom());
        }
        let collected = collect_changed(
            &mut self.delta_hashes,
            &self.prev_checkpoint_blocks,
            golden,
            slots,
            &fresh,
            page_size,
            block_size,
        );
        let raw = pack(to_low32(block_size), &collected.indices, &collected.data);
        assert(raw@.len() == raw.len());
        let compressed = lz4_frame(raw.as_slice());
        proof {
            input.kept_blocks_are_whole(input.fresh.len() as int);
            assert forall|k: u32| #[trigger]
                collected.kept@.contains_key(k) implies collected.kept@[k]@.len() == block_size by {
                assert(blocks_view(collected.kept@).contains_key(k));
            }
        }
        self.seal_packed(collected, compressed)
    }

    proof fn lemma_input_wf(self, slots: Seq<MemSlot<'_>>, dirty: Seq<u64>, page_size: int)
        requires
            self.wf(),
            self.golden_base is Some,
            page_size > 0,
        ensures
            self.delta_input(slots, dirty, page_size).wf(),
            self.delta_input(slots, dirty, page_size).fresh.len() == blocks_before(
                slot_lens(slots),
                page_size,
                self.host_page_size as int,
                slots.len() as int,
            ),
    {
        let input = self.delta_input(slots, dirty, page_size);
        let bs = self.host_page_size as int;
        block_sequence_lens(slots, dirty, page_size, bs, slots.len() as int);
        delta_input_wf(
            slots,
            input.fresh,
            self.delta_hashes@,
            self.prev_checkpoint_blocks@,
            self.golden_base->0@,
            page_size,
            bs,
        );
    }

    /// All that decides what a packed delta carries.
    pub open spec fn delta_input(
        self,
        slots: Seq<MemSlot<'_>>,
        dirty: Seq<u64>,
        page_size: int,
    ) -> DeltaInput {
        delta_input(
            slots,
            slot_hashes(slots, dirty, page_size, self.host_page_size as int),
            self.delta_hashes@,
            self.prev_checkpoint_blocks@,
            self.golden_base->0@,
            page_size,
            self.host_page_size as int,
        )
    }
}

/// The blocks of an image, as many as guest memory has.
pub open spec fn image_blocks(image: Seq<u8>, block_size: int, count: nat) -> Seq<Seq<u8>> {
    Seq::new(count, |g: int| block_at(image, block_size, g))
}

/// Where the blocks stand among those of all slots that have these indices inside these slots.
pub open spec fn entry_places(
    slots: Seq<MemSlot<'_>>,
    page_size: int,
    block_size: int,
    entry_slots: Seq<int>,
    indices: Seq<int>,
) -> Seq<int> {
    Seq::new(
        indices.len(),
        |i: int|
            blocks_before(slot_lens(slots), page_size, block_size, entry_slots[i]) + indices[i],
    )
}

/// Whether `entry_slots` names, for each of the blocks `carried`, the slot it lies in.
pub open spec fn lie_in_slots(
    slots: Seq<MemSlot<'_>>,
    page_size: int,
    block_size: int,
    carried: Seq<int>,
    entry_slots: Seq<int>,
) -> bool {
    &&& entry_slots.len() == carried.len()
    &&& forall|i: int|
        0 <= i < carried.len() ==> 0 <= #[trigger] entry_slots[i] < slots.len() && blocks_before(
            slot_lens(slots),
            page_size,
            block_size,
            entry_slots[i],
        ) <= carried[i] < blocks_before(
            slot_lens(slots),
            page_size,
            block_size,
            entry_slots[i] + 1,
        )
}

proof fn lemma_places(
    input: DeltaInput,
    slots: Seq<MemSlot<'_>>,
    page_size: int,
    entry_slots: Seq<int>,
)
    requires
        input.wf(),
        page_size > 0,
        input.blocks.len() < 0x1_0000_0000,
        input.local == local_indices(slots, page_size, input.block_size, slots.len() as int),
        lie_in_slots(
            slots,
            page_size,
            input.block_size,
            input.emitted(input.fresh.len() as int),
            entry_slots,
        ),
    ensures
        ({
            let carried = input.emitted(input.fresh.len() as int);
            entry_places(
                slots,
                page_size,
                input.block_size,
                entry_slots,
                input.indices_of(carried).map_values(|i: u32| i as int),
            ) == carried
        }),
{
    let carried = input.emitted(input.fresh.len() as int);
    let bs = input.block_size;
    let indices = input.indices_of(carried).map_values(|i: u32| i as int);
    let places = entry_places(slots, page_size, bs, entry_slots, indices);
    assert forall|i: int| 0 <= i < carried.len() implies #[trigger] places[i] == carried[i] by {
        input.table_entry_is_local(i);
        let s = entry_slots[i];
        let l = carried[i] - blocks_before(slot_lens(slots), page_size, bs, s);
        block_entry(slots, page_size, bs, slots.len() as int, s, l);
    }
    assert(places =~= carried);
}

/// What `get_dirty_delta_packed` hands out restores guest memory: its frame, decoded, unpacked and
/// applied to the image of the checkpoint before, gives the blocks of guest memory, where
/// - 32 bits number the blocks,
/// - the reader knows which slot each entry is for, as an index counts inside its slot; nothing has
///   to be known where no block stands before those slots, as in a guest with one slot,
/// - no block differs from the image unless its hash changed, and
/// - no block that changed has come back to its base, unless the image has it so too.
pub proof fn frame_restores_memory<'a>(
    before: Vmm<'a>,
    after: Vmm<'a>,
    slots: Seq<MemSlot<'_>>,
    dirty: Seq<u64>,
    page_size: int,
    delta: DirtyDeltaPacked,
    image: Seq<Seq<u8>>,
    entry_slots: Seq<int>,
)
    requires
        before.wf(),
        before.golden_base is Some,
        before.host_page_size < 0x1_0000_0000,
        page_size > 0,
        before.packs_to(after, slots, dirty, page_size, delta),
        ({
            let input = before.delta_input(slots, dirty, page_size);
            &&& input.blocks.len() < 0x1_0000_0000
            &&& lie_in_slots(
                slots,
                page_size,
                input.block_size,
                input.emitted(input.fresh.len() as int),
                entry_slots,
            )
            &&& image.len() == input.blocks.len()
            &&& forall|g: int|
                0 <= g < input.blocks.len() && !(input.changed(g) && input.blocks[g] != input.base(
                    g,
                )) ==> #[trigger] image[g] == input.blocks[g]
        }),
    ensures
        ({
            &&& lz4_frame_content(delta.blob@) matches Some(blob)
            &&& unpacked(blob) matches Some((block_size, indices, data))
            &&& block_size == before.host_page_size
            &&& (forall|i: int|
                0 <= i < entry_slots.len() ==> blocks_before(
                    slot_lens(slots),
                    page_size,
                    block_size,
                    #[trigger] entry_slots[i],
                ) == 0) ==> entry_places(slots, page_size, block_size, entry_slots, indices)
                == indices
            &&& applied(
                image,
                entry_places(slots, page_size, block_size, entry_slots, indices),
                data,
                blocks_view(before.prev_checkpoint_blocks@),
                before.golden_base->0@,
                block_size,
                indices.len() as int,
            ) == guest_blocks(
                slots,
                page_size,
                before.host_page_size as int,
                slots.len() as int,
            )
        }),
{
    let input = before.delta_input(slots, dirty, page_size);
    before.lemma_input_wf(slots, dirty, page_size);
    delta_restores_memory(input, image);
    lemma_places(input, slots, page_size, entry_slots);
    let carried = input.emitted(input.fresh.len() as int);
    let indices = input.indices_of(carried).map_values(|i: u32| i as int);
    let places = entry_places(slots, page_size, input.block_size, entry_slots, indices);
    if forall|i: int|
        0 <= i < entry_slots.len() ==> blocks_before(
            slot_lens(slots),
            page_size,
            input.block_size,
            #[trigger] entry_slots[i],
        ) == 0 {
        assert forall|i: int| 0 <= i < indices.len() implies #[trigger] places[i] == indices[i] by {
            assert(0 <= entry_slots[i]);
        }
        assert(places =~= indices);
    }
}

/// The first delta after the golden image was taken over restores guest memory from the image
/// alone, where 32 bits number the blocks, the reader knows which slot each entry is for, and no
/// block differs from the image unless its hash changed.
pub proof fn first_frame_restores_from_golden<'a>(
    before: Vmm<'a>,
    after: Vmm<'a>,
    slots: Seq<MemSlot<'_>>,
    dirty: Seq<u64>,
    page_size: int,
    delta: DirtyDeltaPacked,
    entry_slots: Seq<int>,
)
    requires
        before.wf(),
        before.golden_base is Some,
        before.prev_checkpoint_blocks@.len() == 0,
        before.host_page_size < 0x1_0000_0000,
        page_size > 0,
        before.packs_to(after, slots, dirty, page_size, delta),
        ({
            let input = before.delta_input(slots, dirty, page_size);
            &&& input.blocks.len() < 0x1_0000_0000
            &&& lie_in_slots(
                slots,
                page_size,
                input.block_size,
                input.emitted(input.fresh.len() as int),
                entry_slots,
            )
            &&& forall|g: int|
                0 <= g < input.blocks.len() && #[trigger] input.blocks[g] != block_at(
                    input.golden,
                    input.block_size,
                    g,
                ) ==> input.changed(g)
        }),
    ensures
        ({
            let blocks = guest_blocks(
                slots,
                page_size,
                before.host_page_size as int,
                slots.len() as int,
            );
            &&& !delta.is_p_frame
            &&& lz4_frame_content(delta.blob@) matches Some(blob)
            &&& unpacked(blob) matches Some((block_size, indices, data))
            &&& applied(
                image_blocks(before.golden_base->0@, block_size, blocks.len()),
                entry_places(slots, page_size, block_size, entry_slots, indices),
                data,
                Map::empty(),
                before.golden_base->0@,
                block_size,
                indices.len() as int,
            ) == blocks
        }),
{
    let input = before.delta_input(slots, dirty, page_size);
    let bs = before.host_page_size as int;
    let blocks = guest_blocks(slots, page_size, bs, slots.len() as int);
    let image = image_blocks(before.golden_base->0@, bs, blocks.len());
    block_sequence_lens(slots, dirty, page_size, bs, slots.len() as int);
    assert(before.prev_checkpoint_blocks@.dom() =~= Set::<u32>::empty());
    assert(blocks_view(before.prev_checkpoint_blocks@) =~= Map::<u32, Seq<u8>>::empty());
    assert forall|g: int|
        0 <= g < input.blocks.len() && !(input.changed(g) && input.blocks[g] != input.base(
            g,
        )) implies #[trigger] image[g] == input.blocks[g] by {
        assert(input.base(g) == block_at(input.golden, bs, g));
        assert(input.blocks[g] == input.blocks[g]);
    }
    frame_restores_memory(before, after, slots, dirty, page_size, delta, image, entry_slots);
}

/// A packed delta made with no kept blocks, such as the one after `begin_keyframe`, is no P-frame,
/// and every block in it is exclusive-or'd with the golden image.
pub proof fn keyframe_stands_on_golden<'a>(
    before: Vmm<'a>,
    after: Vmm<'a>,
    slots: Seq<MemSlot<'_>>,
    dirty: Seq<u64>,
    page_size: int,
    delta: DirtyDeltaPacked,
    g: int,
)
    requires
        before.prev_checkpoint_blocks@ == Map::<u32, Vec<u8>>::empty(),
        before.packs_to(after, slots, dirty, page_size, delta),
    ensures
        !delta.is_p_frame,
        before.delta_input(slots, dirty, page_size).base(g) == block_at(
            before.golden_base->0@,
            before.host_page_size as int,
            g,
        ),
{
    assert(blocks_view(before.prev_checkpoint_blocks@) =~= Map::<u32, Seq<u8>>::empty());
}

/// A second packed delta over memory and dirty pages that have not changed carries nothing: its
/// blob is the bare header, the stored hashes stay as they are, no block is kept, and it is a
/// P-frame exactly where the first kept at least one block and no more than the cap. As long as 32
/// bits number the blocks, those are as many as it found changed.
pub proof fn repeated_packed_delta_is_empty<'a>(
    before: Vmm<'a>,
    between: Vmm<'a>,
    after: Vmm<'a>,
    slots: Seq<MemSlot<'_>>,
    dirty: Seq<u64>,
    page_size: int,
    first: DirtyDeltaPacked,
    second: DirtyDeltaPacked,
)
    requires
        before.wf(),
        before.golden_base is Some,
        page_size > 0,
        before.packs_to(between, slots, dirty, page_size, first),
        between.packs_to(after, slots, dirty, page_size, second),
    ensures
        second.block_count == 0,
        second.raw_size == 20,
        after.delta_hashes@ == between.delta_hashes@,
        after.prev_checkpoint_blocks@.len() == 0,
        ({
            let input = before.delta_input(slots, dirty, page_size);
            let n = input.fresh.len() as int;
            &&& second.is_p_frame <==> 1 <= input.kept(n).len() <= MAX_PREV_BLOCKS
            &&& input.blocks.len() <= 0x1_0000_0000 ==> input.kept(n).len() == changed_count(
                input.stored,
                input.fresh,
                n,
            )
        }),
{
    let input = before.delta_input(slots, dirty, page_size);
    let again = between.delta_input(slots, dirty, page_size);
    let n = input.fresh.len() as int;
    before.lemma_input_wf(slots, dirty, page_size);
    assert(again.fresh == input.fresh);
    again.nothing_changed(n);
    if input.blocks.len() <= 0x1_0000_0000 {
        input.kept_count(n);
    }
    let none = again.emitted(n).len() as int;
    assert(none * again.block_size == 0) by (nonlinear_arith)
        requires
            none == 0,
    ;
    assert(blocks_view(after.prev_checkpoint_blocks@).dom()
        =~= after.prev_checkpoint_blocks@.dom());
}

/// The bitmap delta and the packed delta agree. From one state both leave the same stored hashes.
/// Every block that the packed delta carries is marked in the bitmap, so it carries no more blocks
/// than are marked, and as many exactly where no marked block equals its base. As long as 32 bits
/// number the blocks, the blob's count is that of the blocks, and with a single slot an index in
/// the blob is itself the place in the bitmap.
pub proof fn packed_delta_is_within_the_bitmap<'a>(
    before: Vmm<'a>,
    marked: Vmm<'a>,
    packed_up: Vmm<'a>,
    slots: Seq<MemSlot<'_>>,
    dirty: Seq<u64>,
    page_size: int,
    bitmap: Seq<u64>,
    delta: DirtyDeltaPacked,
)
    requires
        before.wf(),
        before.golden_base is Some,
        page_size > 0,
        before.deltas_to(marked, slots, dirty, page_size, bitmap),
        before.packs_to(packed_up, slots, dirty, page_size, delta),
    ensures
        marked.delta_hashes@ == packed_up.delta_hashes@,
        ({
            let input = before.delta_input(slots, dirty, page_size);
            let carried = input.emitted(input.fresh.len() as int);
            let n = slots.len() as int;
            &&& forall|i: int|
                0 <= i < carried.len() ==> {
                    let at = block_place(
                        slot_lens(slots),
                        page_size,
                        input.block_size,
                        n,
                        #[trigger] carried[i],
                    );
                    &&& 0 <= at < bits(bitmap).len()
                    &&& bits(bitmap)[at]
                    &&& n == 1 && input.blocks.len() <= 0x1_0000_0000 ==> at == input.indices_of(
                        carried,
                    )[i]
                }
            &&& delta.block_count <= carried.len() <= set_count(bits(bitmap))
            &&& carried.len() == set_count(bits(bitmap)) <==> forall|g: int|
                0 <= g < input.blocks.len() && #[trigger] input.changed(g) ==> input.blocks[g]
                    != input.base(g)
            &&& input.blocks.len() < 0x1_0000_0000 ==> delta.block_count == carried.len()
        }),
{
    let input = before.delta_input(slots, dirty, page_size);
    let lens = slot_lens(slots);
    let bs = input.block_size;
    let n = slots.len() as int;
    let count = input.fresh.len() as int;
    let carried = input.emitted(count);
    let indices = input.indices_of(carried);
    before.lemma_input_wf(slots, dirty, page_size);
    block_sequence_lens(slots, dirty, page_size, bs, n);
    input.emitted_is_exact(count);
    input.carried_count_bounds(count);
    marks_count_changes(lens, input.stored, input.fresh, page_size, bs, n);
    assert forall|i: int| 0 <= i < carried.len() implies {
        let at = block_place(lens, page_size, bs, n, #[trigger] carried[i]);
        &&& 0 <= at < bits(bitmap).len()
        &&& bits(bitmap)[at]
        &&& n == 1 && input.blocks.len() <= 0x1_0000_0000 ==> at == indices[i]
    } by {
        let g = carried[i];
        assert(carried.contains(g));
        bit_at_place_is_change(lens, input.stored, input.fresh, page_size, bs, n, g);
        if n == 1 && input.blocks.len() <= 0x1_0000_0000 {
            assert(blocks_before(lens, page_size, bs, 0) == 0 && words_before(lens, bs, 0) == 0);
            assert(blocks_before(lens, page_size, bs, 1) == blocks_in(lens[0], page_size, bs));
            input.table_entry_is_local(i);
            block_entry(slots, page_size, bs, 1, 0, g);
        }
    }
}

/// A checkpoint that finds more changed blocks than the cap keeps none, and the next delta is no
/// P-frame. Below the cap the next delta is one exactly where a block changed.
pub proof fn cap_decides_next_frame(kept: Map<u32, Seq<u8>>)
    ensures
        capped(kept).len() <= MAX_PREV_BLOCKS,
        kept.len() > MAX_PREV_BLOCKS ==> capped(kept).len() == 0,
        kept.len() <= MAX_PREV_BLOCKS ==> (capped(kept).len() > 0 <==> kept.len() > 0),
{
}

} // verus!
