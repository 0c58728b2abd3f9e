use furiosa_device::{
    expand_status, find_devices, find_devices_in, get_status_all, Arch, CoreStatus, Device, DeviceConfig,
    DeviceFile, DeviceMode, DeviceWithStatus,
};

fn file(device: u8, indices: Vec<u8>, mode: DeviceMode, name: &str) -> DeviceFile {
    DeviceFile::new(device, indices, mode, format!("/dev/{}", name), name.to_string())
}

/// One Warboy NPU with two cores, as the device directory lists its files.
fn warboy_npu(idx: u8) -> Device {
    let files = vec![
        file(idx, vec![0, 1], DeviceMode::MultiCore, &format!("npu{}", idx)),
        file(idx, vec![0], DeviceMode::Single, &format!("npu{}pe0", idx)),
        file(idx, vec![0, 1], DeviceMode::Fusion, &format!("npu{}pe0-1", idx)),
        file(idx, vec![1], DeviceMode::Single, &format!("npu{}pe1", idx)),
    ];
    Device::new(idx, Arch::Warboy, vec![0, 1], files)
}

fn two_npus() -> Vec<Device> {
    vec![warboy_npu(0), warboy_npu(1)]
}

fn all_free(devices: &[Device]) -> Vec<Vec<bool>> {
    devices.iter().map(|d| vec![false; d.dev_files.len()]).collect()
}

fn free_snapshot() -> Vec<DeviceWithStatus> {
    let devices = two_npus();
    let busy = all_free(&devices);
    expand_status(devices, &busy)
}

fn names(found: &[DeviceFile]) -> Vec<String> {
    found.iter().map(|f| f.filename().to_string()).collect()
}

#[test]
fn blocking_test_find_devices() {
    // two warboy NPUs, all files free
    let devices_with_statuses = free_snapshot();

    // try lookup 4 different single cores
    let config = DeviceConfig::warboy().count(4);
    let found = find_devices_in(&config, &devices_with_statuses);
    assert_eq!(found.len(), 4);
    assert_eq!(found[0].filename(), "npu0pe0");
    assert_eq!(found[1].filename(), "npu0pe1");
    assert_eq!(found[2].filename(), "npu1pe0");
    assert_eq!(found[3].filename(), "npu1pe1");

    // looking for 5 different cores should fail
    let config = DeviceConfig::warboy().count(5);
    let found = find_devices_in(&config, &devices_with_statuses);
    assert_eq!(found, vec![]);

    // try lookup 2 different fused cores
    let config = DeviceConfig::warboy().fused().count(2);
    let found = find_devices_in(&config, &devices_with_statuses);
    assert_eq!(found.len(), 2);
    assert_eq!(found[0].filename(), "npu0pe0-1");
    assert_eq!(found[1].filename(), "npu1pe0-1");

    // looking for 3 different fused cores should fail
    let config = DeviceConfig::warboy().fused().count(3);
    let found = find_devices_in(&config, &devices_with_statuses);
    assert_eq!(found, vec![]);
}

#[test]
fn occupied_single_core_blocks_four_singles() {
    let devices = two_npus();
    let mut busy = all_free(&devices);
    busy[0][1] = true; // npu0pe0
    let snapshot = expand_status(devices, &busy);
    assert!(matches!(&snapshot[0].statuses[0], CoreStatus::Occupied(n) if n == "npu0pe0"));
    assert!(snapshot[0].statuses[1].is_available());
    let found = find_devices_in(&DeviceConfig::warboy().count(4), &snapshot);
    assert_eq!(found, vec![]);
    let found = find_devices_in(&DeviceConfig::warboy().count(3), &snapshot);
    assert_eq!(names(&found), vec!["npu0pe1", "npu1pe0", "npu1pe1"]);
}

#[test]
fn occupied_single_core_skips_fused_file_of_its_device() {
    let devices = two_npus();
    let mut busy = all_free(&devices);
    busy[0][1] = true; // npu0pe0
    let snapshot = expand_status(devices, &busy);
    let found = find_devices_in(&DeviceConfig::warboy().fused().count(1), &snapshot);
    assert_eq!(names(&found), vec!["npu1pe0-1"]);
    let found = find_devices_in(&DeviceConfig::warboy().fused().count(2), &snapshot);
    assert_eq!(found, vec![]);
}

#[test]
fn multicore_takes_whole_devices() {
    let snapshot = free_snapshot();
    let found = find_devices_in(&DeviceConfig::warboy().multicore().count(2), &snapshot);
    assert_eq!(names(&found), vec!["npu0", "npu1"]);
    let found = find_devices_in(&DeviceConfig::warboy().multicore().count(3), &snapshot);
    assert_eq!(found, vec![]);
}

#[test]
fn multicore_skips_partly_used_device() {
    let devices = two_npus();
    let mut busy = all_free(&devices);
    busy[0][3] = true; // npu0pe1
    let snapshot = expand_status(devices, &busy);
    let found = find_devices_in(&DeviceConfig::warboy().multicore().count(1), &snapshot);
    assert_eq!(names(&found), vec!["npu1"]);
    assert_eq!(found[0].device_index, 1);
}

#[test]
fn busy_multicore_file_occupies_every_core() {
    let mut device = warboy_npu(0);
    // a MultiCore file that names no core still locks the device
    device.dev_files[0].indices = vec![];
    let statuses = get_status_all(&device, &vec![true, false, false, false]);
    assert_eq!(statuses.len(), 2);
    assert_eq!(statuses[0], CoreStatus::Occupied("npu0".to_string()));
    assert_eq!(statuses[1], CoreStatus::Occupied("npu0".to_string()));
}

#[test]
fn later_busy_file_names_the_holder() {
    let device = warboy_npu(0);
    let statuses = get_status_all(&device, &vec![false, true, true, false]);
    assert_eq!(statuses[0], CoreStatus::Occupied("npu0pe0-1".to_string()));
    assert_eq!(statuses[1], CoreStatus::Occupied("npu0pe0-1".to_string()));
    let statuses = get_status_all(&device, &vec![false, false, false, true]);
    assert_eq!(statuses, vec![CoreStatus::Available, CoreStatus::Occupied("npu0pe1".to_string())]);
}

#[test]
fn free_device_has_all_cores_available() {
    let device = warboy_npu(1);
    let statuses = get_status_all(&device, &vec![false; 4]);
    assert_eq!(statuses, vec![CoreStatus::Available, CoreStatus::Available]);
}

#[test]
fn zero_count_is_empty() {
    let snapshot = free_snapshot();
    let found = find_devices_in(&DeviceConfig::warboy().count(0), &snapshot);
    assert_eq!(found, vec![]);
}

#[test]
fn other_family_is_never_chosen() {
    let snapshot = free_snapshot();
    let config = DeviceConfig { arch: Arch::Renegade, mode: DeviceMode::Single, count: 1 };
    assert_eq!(find_devices_in(&config, &snapshot), vec![]);
}

#[test]
fn mode_filtering_and_disjoint_cores() {
    let snapshot = free_snapshot();
    for (mode, count) in [(DeviceMode::Single, 4u8), (DeviceMode::Fusion, 2), (DeviceMode::MultiCore, 2)] {
        let config = DeviceConfig { arch: Arch::Warboy, mode, count };
        let found = find_devices_in(&config, &snapshot);
        assert_eq!(found.len(), count as usize);
        for (i, a) in found.iter().enumerate() {
            assert_eq!(a.mode(), mode);
            for b in found.iter().skip(i + 1) {
                if a.device_index == b.device_index {
                    assert!(a.indices().iter().all(|c| !b.indices().contains(c)));
                }
            }
        }
    }
}

#[test]
fn repeated_calls_agree() {
    let snapshot = free_snapshot();
    let config = DeviceConfig::warboy().count(3);
    let first = find_devices_in(&config, &snapshot);
    let second = find_devices_in(&config, &snapshot);
    assert_eq!(first, second);
    assert_eq!(names(&first), vec!["npu0pe0", "npu0pe1", "npu1pe0"]);
}

#[test]
fn find_devices_probes_then_allocates() {
    let devices = two_npus();
    let mut busy = all_free(&devices);
    busy[1][0] = true; // npu1
    let found = find_devices(&DeviceConfig::warboy().count(2), devices, &busy);
    assert_eq!(names(&found), vec!["npu0pe0", "npu0pe1"]);
    let devices = two_npus();
    let found = find_devices(&DeviceConfig::warboy().count(3), devices, &busy);
    assert_eq!(found, vec![]);
}

#[test]
fn config_builders() {
    let d = DeviceConfig::default();
    assert_eq!(d, DeviceConfig { arch: Arch::Warboy, mode: DeviceMode::Fusion, count: 1 });
    let b = DeviceConfig::warboy().build();
    assert_eq!(b, DeviceConfig { arch: Arch::Warboy, mode: DeviceMode::Single, count: 1 });
    let m = DeviceConfig::warboy().multicore().count(2);
    assert_eq!(m, DeviceConfig { arch: Arch::Warboy, mode: DeviceMode::MultiCore, count: 2 });
    let f = DeviceConfig::warboy().fused().build();
    assert_eq!(f.mode, DeviceMode::Fusion);
}

#[test]
fn device_file_accessors() {
    let f = file(0, vec![0, 1], DeviceMode::MultiCore, "npu0");
    assert!(f.is_multicore());
    assert_eq!(f.filename(), "npu0");
    assert_eq!(f.path, "/dev/npu0");
    let g = f.clone();
    assert_eq!(f, g);
    let d = warboy_npu(3);
    assert_eq!(d.device_index(), 3);
    assert_eq!(d.arch(), Arch::Warboy);
    assert_eq!(d.cores(), &vec![0, 1]);
    assert_eq!(d.dev_files().len(), 4);
}
