use volumesetup::bcachefs::Step;
use volumesetup::device::LsblkDevice;
use volumesetup::pool::{block_link_name, plan_pool_update, plan_pool_update_checked, PoolScan};

fn dev(path: &str, rota: Option<bool>) -> LsblkDevice {
    LsblkDevice { path: path.to_string(), rota, mountpoints: vec![] }
}

fn args(p: &volumesetup::bcachefs::PlannedCommand) -> Vec<String> {
    p.command.args.clone()
}

#[test]
fn scan_keeps_greatest_index_missing_and_used() {
    let mut s = PoolScan::new();
    assert_eq!(s.last_index, 0);
    s.record(2, Some("sda".to_string()));
    s.record(5, None);
    s.record(3, Some("sdb".to_string()));
    s.record(1, None);
    assert_eq!(s.last_index, 5);
    assert_eq!(s.missing, vec![5, 1]);
    assert!(s.uses(&"sda".to_string()));
    assert!(s.uses(&"sdb".to_string()));
    assert!(!s.uses(&"sdc".to_string()));
}

#[test]
fn block_links_name_their_device() {
    assert_eq!(
        block_link_name("../../../../devices/pci0000:00/0000:00:1f.2/ata1/host0/target0:0:0/0:0:0:0/block/sda"),
        Some("sda".to_string())
    );
    assert_eq!(block_link_name("/"), None);
}

#[test]
fn update_adds_new_devices_removes_lost_ones_and_rereplicates() {
    let mut s = PoolScan::new();
    s.record(0, Some("sda".to_string()));
    s.record(2, None);
    let unused = vec![dev("/dev/sda", Some(true)), dev("/dev/sdb", Some(false)), dev("/dev/sdc", None)];
    let plan = plan_pool_update(&s, &unused, "/mnt/persistent");
    assert_eq!(plan.len(), 4);
    assert_eq!(plan[0].step, Step::AddDevice);
    assert_eq!(args(&plan[0]), vec!["device", "add", "--label", "ssd.d3", "/mnt/persistent", "/dev/sdb"]);
    assert_eq!(plan[1].step, Step::AddDevice);
    assert_eq!(args(&plan[1]), vec!["device", "add", "--label", "hdd.d4", "/mnt/persistent", "/dev/sdc"]);
    assert_eq!(plan[2].step, Step::RemoveDevice);
    assert_eq!(args(&plan[2]), vec!["device", "remove", "2", "/mnt/persistent"]);
    assert_eq!(plan[3].step, Step::Rereplicate);
    assert_eq!(args(&plan[3]), vec!["data", "rereplicate", "/mnt/persistent"]);
    for p in &plan {
        assert_eq!(p.command.program, "bcachefs");
    }
}

#[test]
fn nothing_added_means_no_rereplicate() {
    let mut s = PoolScan::new();
    s.record(0, Some("sda".to_string()));
    s.record(1, None);
    let plan = plan_pool_update(&s, &vec![dev("/dev/sda", None)], "/m");
    assert_eq!(plan.len(), 1);
    assert_eq!(plan[0].step, Step::RemoveDevice);
    assert_eq!(args(&plan[0]), vec!["device", "remove", "1", "/m"]);
    assert!(plan_pool_update(&PoolScan::new(), &vec![], "/m").is_empty());
}

#[test]
fn checked_update_refuses_unnamed_devices_and_overflow() {
    let s = PoolScan::new();
    assert!(plan_pool_update_checked(&s, &vec![dev("/", None)], "/m").is_none());
    let mut big = PoolScan::new();
    big.record(usize::MAX, Some("sda".to_string()));
    assert!(plan_pool_update_checked(&big, &vec![dev("/dev/sdb", None)], "/m").is_none());
    assert!(plan_pool_update_checked(&big, &vec![dev("/dev/sda", None)], "/m").is_some());
    let p = plan_pool_update_checked(&s, &vec![dev("/dev/sdb", None)], "/m").unwrap();
    assert_eq!(args(&p[0]), vec!["device", "add", "--label", "hdd.d1", "/m", "/dev/sdb"]);
}
