use vmm::error::{VmError, VmmError};
use vmm::memory::{mem_size_mib, slot_empty_pages, GuestRegionUffdMapping, MemSlot};
use vmm::vmm::{InstanceInfo, Vmm, VmState};

fn monitor<'a>() -> Vmm<'a> {
    let info = InstanceInfo {
        id: "vm".to_string(),
        state: VmState::NotStarted,
        vmm_version: "1.0".to_string(),
        app_name: "app".to_string(),
    };
    Vmm::new(info, 5, 64, 16)
}

#[test]
fn memory_size_is_counted_in_mib() {
    assert_eq!(mem_size_mib(&vec![]), 0);
    assert_eq!(mem_size_mib(&vec![128 << 20, 64 << 20]), 192);
}

#[test]
fn memory_size_rounds_down_over_all_regions() {
    assert_eq!(mem_size_mib(&vec![(1 << 20) - 1]), 0);
    assert_eq!(mem_size_mib(&vec![1 << 19, 1 << 19]), 1);
}

#[test]
fn mappings_follow_each_other_in_the_file() {
    let a = vec![0u8; 128];
    let b = vec![0u8; 64];
    let slots = vec![
        MemSlot { base_addr: 0x7000, bytes: &a },
        MemSlot { base_addr: 0x9000, bytes: &b },
    ];
    let mappings = monitor().guest_memory_mappings(&slots, 64);
    assert_eq!(
        mappings,
        vec![
            GuestRegionUffdMapping {
                base_host_virt_addr: 0x7000,
                size: 128,
                offset: 0,
                page_size: 64,
                page_size_kib: 64,
            },
            GuestRegionUffdMapping {
                base_host_virt_addr: 0x9000,
                size: 64,
                offset: 128,
                page_size: 64,
                page_size_kib: 64,
            },
        ]
    );
}

#[test]
fn no_slots_have_no_mappings() {
    assert!(monitor().guest_memory_mappings(&vec![], 64).is_empty());
}

#[test]
fn empty_pages_are_the_resident_pages_of_zeros() {
    // Page 0 is resident and zero, page 1 resident and not, page 2 zero but not resident.
    let mut bytes = vec![0u8; 3 * 64];
    bytes[64 + 63] = 1;
    assert_eq!(slot_empty_pages(&bytes, &vec![0b011], 64), vec![0b001]);
}

#[test]
fn memory_info_lays_the_slots_end_to_end() {
    let a = vec![0u8; 65 * 64];
    let mut b = vec![0u8; 2 * 64];
    b[0] = 9;
    let slots = vec![
        MemSlot { base_addr: 0, bytes: &a },
        MemSlot { base_addr: 0x10000, bytes: &b },
    ];
    let residency = vec![Ok(vec![1 << 63, 1]), Ok(vec![0b11])];
    let (resident, empty) = monitor().guest_memory_info(&slots, residency, 64).unwrap();
    assert_eq!(resident, vec![1 << 63, 1, 0b11]);
    assert_eq!(empty, vec![1 << 63, 1, 0b10]);
    for (r, e) in resident.iter().zip(empty.iter()) {
        assert_eq!(r & e, *e);
    }
}

#[test]
fn memory_info_reports_a_failed_residency_read() {
    let a = vec![0u8; 64];
    let slots = vec![
        MemSlot { base_addr: 0, bytes: &a },
        MemSlot { base_addr: 64, bytes: &a },
    ];
    let residency = vec![Ok(vec![1]), Err(VmError("mincore".to_string()))];
    assert_eq!(
        monitor().guest_memory_info(&slots, residency, 64),
        Err(VmmError::Vm(VmError("mincore".to_string())))
    );
}
