use std::collections::HashMap;
use vmm::checkpoint::slot_spans;
use vmm::error::{PagemapError, VmError, VmmError};
use vmm::memory::MemSlot;
use vmm::scan::{kvm_candidates, slot_order, DirtyScan, KvmScan, ScanStep, SlotSpan};
use vmm::vmm::{InstanceInfo, Vmm, VmState};

fn monitor<'a>() -> Vmm<'a> {
    let info = InstanceInfo {
        id: "vm".to_string(),
        state: VmState::Paused,
        vmm_version: "1.0".to_string(),
        app_name: "app".to_string(),
    };
    Vmm::new(info, 5, 0x1000, 0x1000)
}

fn spans() -> Vec<SlotSpan> {
    vec![
        SlotSpan { base_addr: 0x10000, len: 0x3000 },
        SlotSpan { base_addr: 0x40000, len: 0x2000 },
    ]
}

#[test]
fn scan_reads_only_resident_pages() {
    let mut scan = DirtyScan::new(spans(), 0x1000, Ok(()));
    assert_eq!(scan.step(), ScanStep::Candidates { slot: 0 });
    scan.supply_candidates(vec![0b101]);
    assert_eq!(scan.step(), ScanStep::ReadPage { addr: 0x10000 });
    scan.supply_page(false);
    assert_eq!(scan.step(), ScanStep::ReadPage { addr: 0x12000 });
    scan.supply_page(true);
    assert_eq!(scan.step(), ScanStep::Candidates { slot: 1 });
    scan.supply_candidates(vec![0b10]);
    assert_eq!(scan.step(), ScanStep::ReadPage { addr: 0x41000 });
    scan.supply_page(true);
    assert_eq!(scan.step(), ScanStep::Over);
    assert_eq!(monitor().get_dirty_memory(scan), Ok(vec![0b100, 0b10]));
}

#[test]
fn scan_skips_slots_without_resident_pages() {
    let mut scan = DirtyScan::new(spans(), 0x1000, Ok(()));
    scan.supply_candidates(vec![0]);
    assert_eq!(scan.step(), ScanStep::Candidates { slot: 1 });
    scan.supply_candidates(vec![0]);
    assert_eq!(monitor().reset_dirty_memory(scan), Ok(vec![0, 0]));
}

#[test]
fn candidates_past_the_last_page_are_not_read() {
    let mut scan = DirtyScan::new(spans(), 0x1000, Ok(()));
    scan.supply_candidates(vec![u64::MAX << 3]);
    assert_eq!(scan.step(), ScanStep::Candidates { slot: 1 });
}

#[test]
fn scan_without_slots_is_over_at_once() {
    let scan = DirtyScan::new(vec![], 0x1000, Ok(()));
    assert_eq!(scan.step(), ScanStep::Over);
    assert_eq!(scan.finish(), Ok(vec![]));
}

#[test]
fn scan_stops_where_the_page_map_cannot_be_opened() {
    let scan = DirtyScan::new(spans(), 0x1000, Err(PagemapError("open".to_string())));
    assert_eq!(scan.step(), ScanStep::Over);
    assert_eq!(scan.finish(), Err(VmmError::Pagemap(PagemapError("open".to_string()))));
}

#[test]
fn scan_stops_where_residency_cannot_be_read() {
    let mut scan = DirtyScan::new(spans(), 0x1000, Ok(()));
    scan.candidates_failed(VmError("mincore".to_string()));
    assert_eq!(scan.step(), ScanStep::Over);
    assert_eq!(scan.finish(), Err(VmmError::Vm(VmError("mincore".to_string()))));
}

#[test]
fn scan_stops_where_a_page_cannot_be_read() {
    let mut scan = DirtyScan::new(spans(), 0x1000, Ok(()));
    scan.supply_candidates(vec![1]);
    scan.page_failed(PagemapError("read".to_string()));
    assert_eq!(scan.step(), ScanStep::Over);
    assert_eq!(
        monitor().reset_dirty_memory(scan),
        Err(VmmError::Pagemap(PagemapError("read".to_string())))
    );
}

#[test]
fn slots_are_spanned_in_order() {
    let bytes = vec![0u8; 0x2000];
    let slots = vec![MemSlot { base_addr: 0x5000, bytes: &bytes }];
    assert_eq!(slot_spans(&slots), vec![SlotSpan { base_addr: 0x5000, len: 0x2000 }]);
}

#[test]
fn log_slots_are_taken_in_order_of_their_numbers() {
    let mut log = HashMap::new();
    log.insert(9u32, vec![1u64]);
    log.insert(2, vec![2]);
    log.insert(4, vec![3]);
    assert_eq!(slot_order(&log), vec![2, 4, 9]);
}

#[test]
fn memory_slots_without_a_log_have_no_candidates() {
    let mut log = HashMap::new();
    log.insert(7u32, vec![0b11u64]);
    assert_eq!(kvm_candidates(&log, &spans(), 0x1000), vec![vec![0b11], vec![0]]);
}

#[test]
fn dirty_writes_are_logged_and_written() {
    let mut log = HashMap::new();
    log.insert(1u32, vec![0b11u64]);
    log.insert(0, vec![0b110]);
    let mut walk = KvmScan::new(spans(), 0x1000, Ok(Ok(log)));
    assert_eq!(walk.step(), ScanStep::ReadPage { addr: 0x11000 });
    walk.supply_page(Ok(true));
    assert_eq!(walk.step(), ScanStep::ReadPage { addr: 0x12000 });
    walk.supply_page(Ok(false));
    assert_eq!(walk.step(), ScanStep::ReadPage { addr: 0x40000 });
    walk.supply_page(Ok(true));
    assert_eq!(walk.step(), ScanStep::ReadPage { addr: 0x41000 });
    walk.supply_page(Err(PagemapError("read".to_string())));
    assert_eq!(walk.step(), ScanStep::Over);
    assert_eq!(monitor().get_kvm_dirty_writes(walk), Ok(vec![0b010, 0b01]));
}

#[test]
fn an_empty_log_needs_no_page_read() {
    let walk = KvmScan::new(spans(), 0x1000, Ok(Ok(HashMap::new())));
    assert_eq!(walk.step(), ScanStep::Over);
    assert_eq!(monitor().get_kvm_dirty_writes(walk), Ok(vec![0, 0]));
}

#[test]
fn dirty_writes_report_an_unopened_page_map_first() {
    let walk = KvmScan::new(spans(), 0x1000, Err(PagemapError("open".to_string())));
    assert_eq!(
        monitor().get_kvm_dirty_writes(walk),
        Err(VmmError::Pagemap(PagemapError("open".to_string())))
    );
}

#[test]
fn dirty_writes_report_an_unread_log() {
    let walk = KvmScan::new(vec![], 0x1000, Ok(Err(VmError("log".to_string()))));
    assert_eq!(
        monitor().get_kvm_dirty_writes(walk),
        Err(VmmError::Vm(VmError("log".to_string())))
    );
}

#[test]
fn dirty_pages_are_resident_pages() {
    let resident = [vec![0b101u64], vec![0b11]];
    let mut scan = DirtyScan::new(spans(), 0x1000, Ok(()));
    loop {
        match scan.step() {
            ScanStep::Candidates { slot } => scan.supply_candidates(resident[slot].clone()),
            ScanStep::ReadPage { addr } => scan.supply_page(addr != 0x40000),
            ScanStep::Over => break,
        }
    }
    let dirty = monitor().get_dirty_memory(scan).unwrap();
    let resident = resident.concat();
    assert_eq!(dirty, vec![0b101, 0b10]);
    assert_eq!(dirty.len(), resident.len());
    for (d, r) in dirty.iter().zip(resident.iter()) {
        assert_eq!(d & !r, 0);
    }
}
