use vmm::checkpoint::GoldenError;
use vmm::delta::{dirty_block_hashes, hash_blocks, mark_changed};
use vmm::error::{PagemapError, VmmError};
use vmm::memory::MemSlot;
use vmm::vmm::{InstanceInfo, Vmm, VmState};
use xxhash_rust::xxh3::xxh3_64;

// Pages of 32 bytes, four blocks of 8 bytes each.
fn monitor<'a>() -> Vmm<'a> {
    let info = InstanceInfo {
        id: "vm".to_string(),
        state: VmState::Paused,
        vmm_version: "1.0".to_string(),
        app_name: "app".to_string(),
    };
    Vmm::new(info, 5, 32, 8)
}

fn ramp(len: usize) -> Vec<u8> {
    (0..len).map(|i| (i % 251) as u8).collect()
}

#[test]
fn golden_image_is_hashed_block_by_block() {
    let golden = ramp(20);
    let mut vmm = monitor();
    assert_eq!(vmm.init_delta_hashes(Ok(&golden)), Ok(None));
    assert_eq!(vmm.delta_hashes, vec![xxh3_64(&golden[0..8]), xxh3_64(&golden[8..16])]);
    assert_eq!(vmm.golden_base, Some(golden.as_slice()));
}

#[test]
fn hash_of_a_block_is_not_its_bytes() {
    let block = 7u64.to_le_bytes();
    assert_ne!(hash_blocks(&block, 8), vec![7]);
    assert_eq!(hash_blocks(&block, 8), vec![xxh3_64(&block)]);
}

#[test]
fn second_golden_image_displaces_the_first() {
    let first = ramp(16);
    let second = vec![3u8; 8];
    let mut vmm = monitor();
    vmm.init_delta_hashes(Ok(&first)).unwrap();
    assert_eq!(vmm.init_delta_hashes(Ok(&second)), Ok(Some(first.as_slice())));
    assert_eq!(vmm.delta_hashes.len(), 1);
    assert_eq!(vmm.golden_base, Some(second.as_slice()));
}

#[test]
fn golden_image_that_is_not_mapped_changes_nothing() {
    let golden = ramp(16);
    let mut vmm = monitor();
    vmm.init_delta_hashes(Ok(&golden)).unwrap();
    for (error, text) in [
        (GoldenError::Open("gone".to_string()), "open golden: gone"),
        (GoldenError::Stat("torn".to_string()), "stat golden: torn"),
        (GoldenError::Mmap, "mmap golden failed"),
    ] {
        assert_eq!(
            vmm.init_delta_hashes(Err(error)),
            Err(VmmError::InternalError(text.to_string()))
        );
    }
    assert_eq!(vmm.delta_hashes.len(), 2);
    assert_eq!(vmm.golden_base, Some(golden.as_slice()));
}

#[test]
fn delta_needs_hashes_before_anything_else() {
    let bytes = ramp(32);
    let slots = vec![MemSlot { base_addr: 0, bytes: &bytes }];
    let missing = Err(VmmError::InternalError(
        "delta_hashes not initialized — call init_delta_hashes first".to_string(),
    ));
    assert_eq!(monitor().get_dirty_delta(32, &slots, Ok(vec![1])), missing);
    let scan = Err(VmmError::Pagemap(PagemapError("read".to_string())));
    assert_eq!(monitor().get_dirty_delta(32, &slots, scan), missing);
    assert_eq!(monitor().delta_ready(), missing.map(|_| ()));
    let mut vmm = monitor();
    vmm.init_delta_hashes(Ok(&bytes)).unwrap();
    assert_eq!(vmm.delta_ready(), Ok(()));
}

#[test]
fn delta_passes_a_failed_scan_on() {
    let golden = ramp(32);
    let slots = vec![MemSlot { base_addr: 0, bytes: &golden }];
    let mut vmm = monitor();
    vmm.init_delta_hashes(Ok(&golden)).unwrap();
    let scan = Err(VmmError::Pagemap(PagemapError("read".to_string())));
    assert_eq!(
        vmm.get_dirty_delta(32, &slots, scan),
        Err(VmmError::Pagemap(PagemapError("read".to_string())))
    );
}

#[test]
fn untouched_memory_has_no_delta() {
    let golden = ramp(64);
    let slots = vec![MemSlot { base_addr: 0, bytes: &golden }];
    let mut vmm = monitor();
    vmm.init_delta_hashes(Ok(&golden)).unwrap();
    assert_eq!(vmm.get_dirty_delta(32, &slots, Ok(vec![0b11])), Ok(vec![0]));
}

#[test]
fn delta_marks_changed_blocks_of_dirty_pages_once() {
    let golden = ramp(64);
    let mut bytes = golden.clone();
    bytes[0] ^= 1; // block 0, page 0
    bytes[63] ^= 1; // block 7, page 1
    let slots = vec![MemSlot { base_addr: 0, bytes: &bytes }];
    let mut vmm = monitor();
    vmm.init_delta_hashes(Ok(&golden)).unwrap();
    // Only page 1 is dirty.
    assert_eq!(vmm.get_dirty_delta(32, &slots, Ok(vec![0b10])), Ok(vec![1 << 7]));
    assert_eq!(vmm.delta_hashes[7], xxh3_64(&bytes[56..64]));
    assert_eq!(vmm.delta_hashes[0], xxh3_64(&golden[0..8]));
    // The same pages again: nothing is left.
    assert_eq!(vmm.get_dirty_delta(32, &slots, Ok(vec![0b10])), Ok(vec![0]));
    // Now page 0 is dirty too.
    assert_eq!(vmm.get_dirty_delta(32, &slots, Ok(vec![0b11])), Ok(vec![1]));
}

#[test]
fn each_slot_is_looked_up_in_its_own_bitmap() {
    let golden = vec![0u8; 64];
    let first = vec![1u8; 32];
    let second = vec![2u8; 32];
    let slots = vec![
        MemSlot { base_addr: 0, bytes: &first },
        MemSlot { base_addr: 0x1000, bytes: &second },
    ];
    let mut vmm = monitor();
    vmm.init_delta_hashes(Ok(&golden)).unwrap();
    assert_eq!(vmm.get_dirty_delta(32, &slots, Ok(vec![0, 1])), Ok(vec![0, 0b1111]));
    assert_eq!(vmm.get_dirty_delta(32, &slots, Ok(vec![1, 0])), Ok(vec![0b1111, 0]));
}

#[test]
fn blocks_past_the_golden_image_are_never_marked() {
    let golden = vec![0u8; 16];
    let bytes = vec![1u8; 32];
    let slots = vec![MemSlot { base_addr: 0, bytes: &bytes }];
    let mut vmm = monitor();
    vmm.init_delta_hashes(Ok(&golden)).unwrap();
    assert_eq!(vmm.get_dirty_delta(32, &slots, Ok(vec![1])), Ok(vec![0b11]));
    assert_eq!(vmm.delta_hashes.len(), 2);
}

#[test]
fn bytes_behind_the_last_whole_page_are_left_out() {
    let golden = vec![0u8; 48];
    let bytes = vec![1u8; 48];
    let slots = vec![MemSlot { base_addr: 0, bytes: &bytes }];
    let mut vmm = monitor();
    vmm.init_delta_hashes(Ok(&golden)).unwrap();
    assert_eq!(vmm.get_dirty_delta(32, &slots, Ok(vec![1])), Ok(vec![0b1111]));
}

#[test]
fn only_blocks_of_dirty_pages_are_hashed() {
    let bytes = ramp(64);
    let slots = vec![MemSlot { base_addr: 0, bytes: &bytes }];
    let fresh = dirty_block_hashes(&slots, &vec![0b10], 32, 8);
    assert_eq!(fresh.len(), 8);
    assert_eq!(fresh[..4], [None; 4]);
    for i in 4..8 {
        assert_eq!(fresh[i], Some(xxh3_64(&bytes[8 * i..8 * i + 8])));
    }
}

#[test]
fn given_hashes_decide_what_changed() {
    let bytes = vec![0u8; 32];
    let slots = vec![MemSlot { base_addr: 0, bytes: &bytes }];
    let mut stored = vec![10, 11, 12];
    let fresh = vec![Some(10), Some(99), None, Some(13)];
    let delta = mark_changed(&mut stored, &slots, &fresh, 32, 8);
    assert_eq!(delta, vec![0b0010]);
    assert_eq!(stored, vec![10, 99, 12]);
}
