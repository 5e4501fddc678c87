use vmm::error::{
    BalloonError, BlockError, FindDeviceError, I8042DeviceError, VirtioMemError, VmmError,
};
use vmm::vmm::{InstanceInfo, Vmm, VmState};

fn monitor<'a>() -> Vmm<'a> {
    let info = InstanceInfo {
        id: "vm".to_string(),
        state: VmState::Running,
        vmm_version: "1.0".to_string(),
        app_name: "app".to_string(),
    };
    Vmm::new(info, 5, 32, 8)
}

fn lost() -> FindDeviceError {
    FindDeviceError("not found".to_string())
}

#[test]
fn missing_devices_are_reported() {
    let vmm = monitor();
    let missing = || Err(VmmError::FindDeviceError(lost()));
    assert_eq!(vmm.get_block_dirty_bitmap::<u8>(Err(lost())), missing().map(|()| 0));
    assert_eq!(vmm.update_block_device_path(Err(lost())), missing());
    assert_eq!(vmm.update_block_rate_limiter(Err(lost())), missing());
    assert_eq!(vmm.update_vhost_user_block_config(Err(lost())), missing());
    assert_eq!(vmm.update_net_rate_limiters(Err(lost())), missing());
    assert_eq!(vmm.balloon_config::<u8>(Err(lost())), missing().map(|()| 0));
    assert_eq!(vmm.latest_balloon_stats::<u8>(Err(lost())), missing().map(|()| 0));
    assert_eq!(vmm.update_balloon_config(Err(lost())), missing());
    assert_eq!(vmm.update_balloon_stats_config(Err(lost())), missing());
    assert_eq!(vmm.start_balloon_hinting(Err(lost())), missing());
    assert_eq!(vmm.get_balloon_hinting_status::<u8>(Err(lost())), missing().map(|()| 0));
    assert_eq!(vmm.stop_balloon_hinting(Err(lost())), missing());
    assert_eq!(vmm.memory_hotplug_status::<u8>(Err(lost())), missing().map(|()| 0));
    assert_eq!(vmm.update_memory_hotplug_size(Err(lost())), missing());
}

#[test]
fn block_errors_are_reported() {
    let vmm = monitor();
    let error = || BlockError("io".to_string());
    let failed = || Err(VmmError::Block(error()));
    assert_eq!(vmm.update_block_device_path(Ok(Err(error()))), failed());
    assert_eq!(vmm.update_block_rate_limiter(Ok(Err(error()))), failed());
    assert_eq!(vmm.update_vhost_user_block_config(Ok(Err(error()))), failed());
}

#[test]
fn balloon_errors_are_reported() {
    let vmm = monitor();
    let error = || BalloonError("stats".to_string());
    let failed = || Err(VmmError::Balloon(error()));
    assert_eq!(vmm.latest_balloon_stats::<()>(Ok(Err(error()))), failed());
    assert_eq!(vmm.update_balloon_config(Ok(Err(error()))), failed());
    assert_eq!(vmm.update_balloon_stats_config(Ok(Err(error()))), failed());
    assert_eq!(vmm.start_balloon_hinting(Ok(Err(error()))), failed());
    assert_eq!(vmm.get_balloon_hinting_status::<()>(Ok(Err(error()))), failed());
    assert_eq!(vmm.stop_balloon_hinting(Ok(Err(error()))), failed());
}

#[test]
fn hotplug_and_keyboard_errors_are_reported() {
    let vmm = monitor();
    assert_eq!(
        vmm.update_memory_hotplug_size(Ok(Err(VirtioMemError("size".to_string())))),
        Err(VmmError::VirtioMem(VirtioMemError("size".to_string())))
    );
    assert_eq!(
        vmm.send_ctrl_alt_del(Err(I8042DeviceError("irq".to_string()))),
        Err(VmmError::I8042Error(I8042DeviceError("irq".to_string())))
    );
}

#[test]
fn successes_are_handed_through() {
    let vmm = monitor();
    assert_eq!(vmm.send_ctrl_alt_del(Ok(())), Ok(()));
    assert_eq!(vmm.get_block_dirty_bitmap(Ok(vec![3u64])), Ok(vec![3]));
    assert_eq!(vmm.update_block_device_path(Ok(Ok(()))), Ok(()));
    assert_eq!(vmm.update_block_rate_limiter(Ok(Ok(()))), Ok(()));
    assert_eq!(vmm.update_vhost_user_block_config(Ok(Ok(()))), Ok(()));
    assert_eq!(vmm.update_net_rate_limiters(Ok(())), Ok(()));
    assert_eq!(vmm.balloon_config(Ok(64)), Ok(64));
    assert_eq!(vmm.latest_balloon_stats(Ok(Ok(65))), Ok(65));
    assert_eq!(vmm.update_balloon_config(Ok(Ok(()))), Ok(()));
    assert_eq!(vmm.update_balloon_stats_config(Ok(Ok(()))), Ok(()));
    assert_eq!(vmm.start_balloon_hinting(Ok(Ok(()))), Ok(()));
    assert_eq!(vmm.get_balloon_hinting_status(Ok(Ok(66))), Ok(66));
    assert_eq!(vmm.stop_balloon_hinting(Ok(Ok(()))), Ok(()));
    assert_eq!(vmm.memory_hotplug_status(Ok(67)), Ok(67));
    assert_eq!(vmm.update_memory_hotplug_size(Ok(Ok(()))), Ok(()));
}
