use lz4_flex::frame::FrameDecoder;
use std::collections::HashMap;
use std::io::Read;
use vmm::checkpoint::DirtyDeltaPacked;
use vmm::error::{PagemapError, VmmError};
use vmm::memory::MemSlot;
use vmm::outside::Lz4Failure;
use vmm::pack::{collect_changed, pack, to_low32, xor_blocks, DeltaBlocks};
use vmm::vmm::{InstanceInfo, Vmm, VmState, MAX_PREV_BLOCKS};
use xxhash_rust::xxh3::xxh3_64;

// Pages of 32 bytes, four blocks of 8 bytes each.
fn monitor<'a>() -> Vmm<'a> {
    let info = InstanceInfo {
        id: "vm".to_string(),
        state: VmState::Paused,
        vmm_version: "1.0".to_string(),
        app_name: "app".to_string(),
    };
    Vmm::new(info, 5, 32, 8)
}

fn decoded(delta: &DirtyDeltaPacked) -> Vec<u8> {
    let mut raw = Vec::new();
    FrameDecoder::new(delta.blob.as_slice()).read_to_end(&mut raw).unwrap();
    raw
}

fn le32(bytes: &[u8], at: usize) -> usize {
    u32::from_le_bytes([bytes[at], bytes[at + 1], bytes[at + 2], bytes[at + 3]]) as usize
}

// Applies a blob to an image, with the blocks kept from the checkpoint before. `firsts[i]` blocks
// stand before the slot that entry `i` is for.
fn apply_to_slots(
    image: &mut [u8],
    raw: &[u8],
    firsts: &[usize],
    prev: &HashMap<u32, Vec<u8>>,
    golden: &[u8],
) {
    assert_eq!(&raw[..6], &[0x46, 0x43, 0x42, 0x4b, 1, 0]);
    let size = le32(raw, 6);
    let count = le32(raw, 10);
    for i in 0..count {
        let place = firsts[i] + le32(raw, 20 + 4 * i);
        let at = 20 + 4 * count + size * i;
        for j in 0..size {
            let base = match prev.get(&(place as u32)) {
                Some(block) => block[j],
                None => golden[place * size + j],
            };
            image[place * size + j] = raw[at + j] ^ base;
        }
    }
}

// The same for a guest with one slot.
fn apply(image: &mut [u8], raw: &[u8], prev: &HashMap<u32, Vec<u8>>, golden: &[u8]) {
    apply_to_slots(image, raw, &vec![0; le32(raw, 10)], prev, golden);
}

fn ramp(len: usize) -> Vec<u8> {
    (0..len).map(|i| (i % 251) as u8).collect()
}

#[test]
fn blob_has_the_packed_layout() {
    let blob = pack(4096, &vec![1, 0x0102_0304], &vec![0xaa, 0xbb]);
    assert_eq!(
        blob,
        vec![
            0x46, 0x43, 0x42, 0x4b, 1, 0, 0x00, 0x10, 0, 0, 2, 0, 0, 0, 0, 0, 0, 0, 0, 0, 1, 0, 0,
            0, 4, 3, 2, 1, 0xaa, 0xbb
        ]
    );
}

#[test]
fn empty_blob_is_a_header() {
    let blob = pack(8, &vec![], &vec![]);
    assert_eq!(blob.len(), 20);
    assert_eq!(&blob[..4], b"FCBK");
    assert_eq!(le32(&blob, 6), 8);
    assert_eq!(le32(&blob, 10), 0);
}

#[test]
fn low_bits_are_kept() {
    assert_eq!(to_low32(0x1_0000_0005), 5);
    assert_eq!(to_low32(0xffff_ffff), 0xffff_ffff);
}

#[test]
fn exclusive_or_undoes_itself() {
    let a = [1u8, 2, 0xff];
    let b = [1u8, 7, 0x0f];
    let (x, same) = xor_blocks(&a, &b);
    assert_eq!(x, vec![0, 5, 0xf0]);
    assert!(!same);
    assert_eq!(xor_blocks(&x, &b).0, a);
    assert_eq!(xor_blocks(&a, &a), (vec![0, 0, 0], true));
}

#[test]
fn first_delta_restores_memory_from_golden() {
    let golden = ramp(64);
    let mut bytes = golden.clone();
    bytes[9] = 200;
    bytes[40..48].copy_from_slice(&[9; 8]);
    let slots = vec![MemSlot { base_addr: 0, bytes: &bytes }];
    let mut vmm = monitor();
    vmm.init_delta_hashes(Ok(&golden)).unwrap();
    let delta = vmm.get_dirty_delta_packed(32, &slots, Ok(vec![0b11])).unwrap();
    assert_eq!(delta.block_count, 2);
    assert_eq!(delta.raw_size, 20 + 2 * 4 + 2 * 8);
    assert!(!delta.is_p_frame);
    let raw = decoded(&delta);
    assert_eq!(raw.len() as u64, delta.raw_size);
    assert_ne!(raw, delta.blob);
    assert_eq!((le32(&raw, 20), le32(&raw, 24)), (1, 5));
    let mut image = golden.clone();
    apply(&mut image, &raw, &HashMap::new(), &golden);
    assert_eq!(image, bytes);
    // The changed blocks are kept as they stand.
    assert_eq!(vmm.prev_checkpoint_blocks.len(), 2);
    assert_eq!(vmm.prev_checkpoint_blocks[&1], bytes[8..16].to_vec());
    assert_eq!(vmm.prev_checkpoint_blocks[&5], bytes[40..48].to_vec());
}

#[test]
fn second_delta_builds_on_the_first() {
    let golden = ramp(64);
    let mut first = golden.clone();
    first[0] = 100;
    first[17] = 101;
    let mut second = first.clone();
    second[1] = 102; // changed again
    second[63] = 103; // changed for the first time
    let mut vmm = monitor();
    vmm.init_delta_hashes(Ok(&golden)).unwrap();
    let slots = vec![MemSlot { base_addr: 0, bytes: &first }];
    vmm.get_dirty_delta_packed(32, &slots, Ok(vec![0b11])).unwrap();
    let prev = vmm.prev_checkpoint_blocks.clone();
    let slots = vec![MemSlot { base_addr: 0, bytes: &second }];
    let delta = vmm.get_dirty_delta_packed(32, &slots, Ok(vec![0b11])).unwrap();
    assert!(delta.is_p_frame);
    assert_eq!(delta.block_count, 2);
    let raw = decoded(&delta);
    // Block 0 differs from the one kept before in a single byte.
    assert_eq!(&raw[28..36], &[0, second[1] ^ first[1], 0, 0, 0, 0, 0, 0]);
    let mut image = first.clone();
    apply(&mut image, &raw, &prev, &golden);
    assert_eq!(image, second);
    let mut keys: Vec<u32> = vmm.prev_checkpoint_blocks.keys().copied().collect();
    keys.sort_unstable();
    assert_eq!(keys, vec![0, 7]);
}

#[test]
fn unchanged_memory_packs_to_nothing_and_ends_the_p_frames() {
    let golden = ramp(32);
    let mut bytes = golden.clone();
    bytes[0] = 77;
    let slots = vec![MemSlot { base_addr: 0, bytes: &bytes }];
    let mut vmm = monitor();
    vmm.init_delta_hashes(Ok(&golden)).unwrap();
    vmm.get_dirty_delta_packed(32, &slots, Ok(vec![1])).unwrap();
    let idle = vmm.get_dirty_delta_packed(32, &slots, Ok(vec![1])).unwrap();
    assert_eq!((idle.block_count, idle.raw_size, idle.is_p_frame), (0, 20, true));
    assert!(vmm.prev_checkpoint_blocks.is_empty());
    let next = vmm.get_dirty_delta_packed(32, &slots, Ok(vec![1])).unwrap();
    assert!(!next.is_p_frame);
}

#[test]
fn block_that_equals_its_base_is_kept_but_not_carried() {
    let golden = vec![0u8; 32];
    let dirtied = vec![5u8; 32];
    let mut vmm = monitor();
    vmm.init_delta_hashes(Ok(&golden)).unwrap();
    // The plain delta stores new hashes without keeping blocks.
    let slots = vec![MemSlot { base_addr: 0, bytes: &dirtied }];
    vmm.get_dirty_delta(32, &slots, Ok(vec![1])).unwrap();
    // Back at the golden contents every hash changes, and no block differs from its base.
    let slots = vec![MemSlot { base_addr: 0, bytes: &golden }];
    let delta = vmm.get_dirty_delta_packed(32, &slots, Ok(vec![1])).unwrap();
    assert_eq!(delta.block_count, 0);
    assert_eq!(vmm.prev_checkpoint_blocks.len(), 4);
    assert_eq!(vmm.prev_checkpoint_blocks[&3], vec![0u8; 8]);
}

#[test]
fn indices_count_inside_each_slot() {
    let golden = ramp(64);
    let first = golden[..32].to_vec();
    let mut second = golden[32..].to_vec();
    // Slot 1's block 1 now holds what the golden image has in slot 0's block 1.
    second[8..16].copy_from_slice(&golden[8..16]);
    let slots = vec![
        MemSlot { base_addr: 0, bytes: &first },
        MemSlot { base_addr: 0x1000, bytes: &second },
    ];
    let mut vmm = monitor();
    vmm.init_delta_hashes(Ok(&golden)).unwrap();
    let delta = vmm.get_dirty_delta_packed(32, &slots, Ok(vec![0, 1])).unwrap();
    let raw = decoded(&delta);
    assert_eq!(le32(&raw, 10), 1);
    assert_eq!(le32(&raw, 20), 1);
    // Its base is the golden block at its own place, and so is what it is kept under.
    let expected: Vec<u8> = (0..8).map(|i| second[8 + i] ^ golden[40 + i]).collect();
    assert_eq!(&raw[24..], expected.as_slice());
    assert_eq!(vmm.prev_checkpoint_blocks.len(), 1);
    assert_eq!(vmm.prev_checkpoint_blocks[&5], second[8..16].to_vec());
}

#[test]
fn blocks_of_two_slots_are_kept_apart() {
    let golden = ramp(64);
    let mut memory = golden.clone();
    let mut vmm = monitor();
    vmm.init_delta_hashes(Ok(&golden)).unwrap();
    let mut image = golden.clone();
    for round in 1..4u8 {
        // The same block of both slots changes.
        memory[3] = round;
        memory[35] = 100 + round;
        let prev = vmm.prev_checkpoint_blocks.clone();
        let (first, second) = memory.split_at(32);
        let slots = vec![
            MemSlot { base_addr: 0, bytes: first },
            MemSlot { base_addr: 0x1000, bytes: second },
        ];
        let delta = vmm.get_dirty_delta_packed(32, &slots, Ok(vec![1, 1])).unwrap();
        assert_eq!(delta.block_count, 2);
        assert_eq!(delta.is_p_frame, round > 1);
        let raw = decoded(&delta);
        assert_eq!((le32(&raw, 20), le32(&raw, 24)), (0, 0));
        apply_to_slots(&mut image, &raw, &[0, 4], &prev, &golden);
        assert_eq!(image, memory);
        assert_eq!(vmm.prev_checkpoint_blocks.len(), 2);
        assert_eq!(vmm.prev_checkpoint_blocks[&0], memory[0..8].to_vec());
        assert_eq!(vmm.prev_checkpoint_blocks[&4], memory[32..40].to_vec());
    }
}

#[test]
fn packed_delta_with_every_kind_of_block() {
    let page = |x: u8| vec![x; 4096];
    let info = InstanceInfo {
        id: "vm".to_string(),
        state: VmState::Paused,
        vmm_version: "1.0".to_string(),
        app_name: "app".to_string(),
    };
    let golden = vec![0x0f; 12288];
    let memory = [page(0x0f), page(0x33), page(0xfe)].concat();
    let slots = vec![MemSlot { base_addr: 0, bytes: &memory }];
    let mut vmm = Vmm::new(info, 5, 4096, 4096);
    vmm.init_delta_hashes(Ok(&golden)).unwrap();
    let hashes = vec![xxh3_64(&page(0x0f)), xxh3_64(&page(0x33)), xxh3_64(&page(0xfe))];
    vmm.delta_hashes = vec![!hashes[0], hashes[1], !hashes[2]];
    vmm.prev_checkpoint_blocks.insert(2, page(0xff));
    let delta = vmm.get_dirty_delta_packed(4096, &slots, Ok(vec![0b111])).unwrap();
    assert_eq!((delta.block_count, delta.raw_size, delta.is_p_frame), (1, 4120, true));
    let mut expected = b"FCBK".to_vec();
    expected.extend([1, 0, 0, 16, 0, 0, 1, 0, 0, 0, 0, 0, 0, 0, 0, 0, 2, 0, 0, 0]);
    expected.extend(page(0x01));
    assert_eq!(decoded(&delta), expected);
    assert_eq!(
        vmm.prev_checkpoint_blocks,
        HashMap::from([(0, page(0x0f)), (2, page(0xfe))])
    );
    assert_eq!(vmm.delta_hashes, hashes);
}

#[test]
fn packed_indices_are_marked_in_the_bitmap() {
    let golden = vec![0u8; 32];
    let memory: Vec<u8> = [[1u8; 8], [0; 8], [0; 8], [4; 8]].concat();
    let slots = vec![MemSlot { base_addr: 0, bytes: &memory }];
    let state = || {
        let mut vmm = monitor();
        vmm.init_delta_hashes(Ok(&golden)).unwrap();
        // Block 1 counts as changed and equals its base.
        vmm.delta_hashes[1] ^= 1;
        vmm
    };
    let mut plain = state();
    let bitmap = plain.get_dirty_delta(32, &slots, Ok(vec![1])).unwrap();
    let mut packing = state();
    let delta = packing.get_dirty_delta_packed(32, &slots, Ok(vec![1])).unwrap();
    assert_eq!(bitmap, vec![0b1011]);
    let raw = decoded(&delta);
    assert_eq!(delta.block_count, 2);
    for i in 0..2 {
        assert_ne!(bitmap[0] & (1 << le32(&raw, 20 + 4 * i)), 0);
    }
    assert_eq!(plain.delta_hashes, packing.delta_hashes);
}

#[test]
fn keyframe_forgets_the_kept_blocks() {
    let golden = ramp(32);
    let mut memory = golden.clone();
    memory[0] = 200;
    let mut vmm = monitor();
    vmm.init_delta_hashes(Ok(&golden)).unwrap();
    let slots = vec![MemSlot { base_addr: 0, bytes: &memory }];
    vmm.get_dirty_delta_packed(32, &slots, Ok(vec![1])).unwrap();
    let mut later = memory.clone();
    later[0] = 201;
    vmm.begin_keyframe();
    assert!(vmm.prev_checkpoint_blocks.is_empty());
    let slots = vec![MemSlot { base_addr: 0, bytes: &later }];
    let delta = vmm.get_dirty_delta_packed(32, &slots, Ok(vec![1])).unwrap();
    assert!(!delta.is_p_frame);
    assert_eq!(decoded(&delta)[24], later[0] ^ golden[0]);
}

#[test]
fn cap_on_kept_blocks_makes_the_next_delta_an_i_frame() {
    let blocks = MAX_PREV_BLOCKS + 4;
    let golden = vec![0u8; 8 * blocks];
    let bytes = vec![1u8; 8 * blocks];
    let pages = blocks / 4;
    let dirty = vec![u64::MAX; (pages + 63) / 64];
    let mut vmm = monitor();
    vmm.init_delta_hashes(Ok(&golden)).unwrap();
    let slots = vec![MemSlot { base_addr: 0, bytes: &bytes }];
    let delta = vmm.get_dirty_delta_packed(32, &slots, Ok(dirty.clone())).unwrap();
    assert_eq!(delta.block_count as usize, blocks);
    assert!(vmm.prev_checkpoint_blocks.is_empty());
    let mut later = bytes.clone();
    later[0] = 2;
    let slots = vec![MemSlot { base_addr: 0, bytes: &later }];
    let next = vmm.get_dirty_delta_packed(32, &slots, Ok(dirty)).unwrap();
    assert_eq!((next.block_count, next.is_p_frame), (1, false));
    assert_eq!(vmm.prev_checkpoint_blocks.len(), 1);
}

#[test]
fn as_many_blocks_as_the_cap_are_kept() {
    let golden = vec![0u8; 8 * MAX_PREV_BLOCKS];
    let bytes = vec![1u8; 8 * MAX_PREV_BLOCKS];
    let dirty = vec![u64::MAX; MAX_PREV_BLOCKS / 4 / 64];
    let mut vmm = monitor();
    vmm.init_delta_hashes(Ok(&golden)).unwrap();
    let slots = vec![MemSlot { base_addr: 0, bytes: &bytes }];
    vmm.get_dirty_delta_packed(32, &slots, Ok(dirty)).unwrap();
    assert_eq!(vmm.prev_checkpoint_blocks.len(), MAX_PREV_BLOCKS);
}

#[test]
fn packed_delta_reports_what_is_missing_in_order() {
    let bytes = ramp(32);
    let slots = vec![MemSlot { base_addr: 0, bytes: &bytes }];
    let scan = || Err(VmmError::Pagemap(PagemapError("read".to_string())));
    let mut vmm = monitor();
    assert_eq!(
        vmm.get_dirty_delta_packed(32, &slots, scan()),
        Err(VmmError::InternalError(
            "delta_hashes not initialized — call init_delta_hashes first".to_string()
        ))
    );
    vmm.delta_hashes = vec![1];
    assert_eq!(
        vmm.get_dirty_delta_packed(32, &slots, scan()),
        Err(VmmError::InternalError("golden_base not available for XOR".to_string()))
    );
    assert_eq!(
        vmm.packed_delta_ready(),
        Err(VmmError::InternalError("golden_base not available for XOR".to_string()))
    );
    vmm.init_delta_hashes(Ok(&bytes)).unwrap();
    assert_eq!(vmm.packed_delta_ready(), Ok(()));
    assert_eq!(
        vmm.get_dirty_delta_packed(32, &slots, scan()),
        Err(VmmError::Pagemap(PagemapError("read".to_string())))
    );
}

#[test]
fn failed_compression_keeps_the_blocks_of_the_checkpoint_before() {
    let mut vmm = monitor();
    vmm.prev_checkpoint_blocks.insert(3, vec![9; 8]);
    let collected = || {
        let mut kept = HashMap::new();
        kept.insert(1u32, vec![1u8; 8]);
        DeltaBlocks { indices: vec![1], data: vec![7; 8], kept }
    };
    assert_eq!(
        vmm.seal_packed(collected(), Err(Lz4Failure::Write("full".to_string()))),
        Err(VmmError::InternalError("lz4 compress write: full".to_string()))
    );
    assert_eq!(
        vmm.seal_packed(collected(), Err(Lz4Failure::Finish("torn".to_string()))),
        Err(VmmError::InternalError("lz4 compress finish: torn".to_string()))
    );
    assert_eq!(vmm.prev_checkpoint_blocks.len(), 1);
    assert_eq!(vmm.prev_checkpoint_blocks[&3], vec![9; 8]);
}

#[test]
fn sealed_delta_carries_the_figures_of_its_blob() {
    let mut vmm = monitor();
    vmm.prev_checkpoint_blocks.insert(3, vec![9; 8]);
    let collected = DeltaBlocks { indices: vec![1, 2], data: vec![7; 16], kept: HashMap::new() };
    assert_eq!(
        vmm.seal_packed(collected, Ok(vec![1, 2, 3])),
        Ok(DirtyDeltaPacked {
            blob: vec![1, 2, 3],
            block_count: 2,
            raw_size: 44,
            is_p_frame: true,
        })
    );
    assert!(vmm.prev_checkpoint_blocks.is_empty());
}

#[test]
fn given_hashes_decide_what_is_collected() {
    let golden = vec![0u8; 32];
    let bytes: Vec<u8> = [[1u8; 8], [0; 8], [3; 8], [4; 8]].concat();
    let slots = vec![MemSlot { base_addr: 0, bytes: &bytes }];
    let mut prev = HashMap::new();
    prev.insert(2u32, vec![2u8; 8]);
    let mut stored = vec![10, 11, 12, 13];
    let fresh = vec![Some(20), Some(21), Some(22), None];
    let out = collect_changed(&mut stored, &prev, &golden, &slots, &fresh, 32, 8);
    assert_eq!(out.indices, vec![0, 2]);
    assert_eq!(out.data, [[1u8; 8], [1; 8]].concat());
    assert_eq!(out.kept.len(), 3);
    assert_eq!(out.kept[&1], vec![0; 8]);
    assert_eq!(stored, vec![20, 21, 22, 13]);
}

#[test]
fn received_blocks_are_enough_for_the_next_delta() {
    // Three checkpoints; the reader keeps only what it was sent.
    let golden = ramp(64);
    let mut vmm = monitor();
    vmm.init_delta_hashes(Ok(&golden)).unwrap();
    let mut image = golden.clone();
    let mut memory = golden.clone();
    let mut received: HashMap<u32, Vec<u8>> = HashMap::new();
    for round in 0..3u8 {
        memory[8 * round as usize] ^= 0x80;
        memory[33] = round;
        let slots = vec![MemSlot { base_addr: 0, bytes: &memory }];
        let delta = vmm.get_dirty_delta_packed(32, &slots, Ok(vec![0b11])).unwrap();
        if !delta.is_p_frame {
            received.clear();
        }
        let raw = decoded(&delta);
        apply(&mut image, &raw, &received, &golden);
        assert_eq!(image, memory);
        received.clear();
        for i in 0..delta.block_count as usize {
            let index = le32(&raw, 20 + 4 * i);
            received.insert(index as u32, image[8 * index..8 * index + 8].to_vec());
        }
    }
}
