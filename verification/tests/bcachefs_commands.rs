use volumesetup::bcachefs::{
    format_command, label, member_index, mount_command, sysfs_pool_dir, unmount_command, uuid_device_path,
    FormatError,
};
use volumesetup::device::LsblkDevice;

fn dev(path: &str, rota: Option<bool>) -> LsblkDevice {
    LsblkDevice { path: path.to_string(), rota, mountpoints: vec![] }
}

#[test]
fn mount_reads_key_from_stdin_when_there_is_one() {
    let c = mount_command("abcd", "/mnt/persistent", true);
    assert_eq!(c.program, "bcachefs");
    assert_eq!(c.args, vec!["mount", "-o", "degraded", "UUID=abcd", "/mnt/persistent", "--key_location=stdin"]);
}

#[test]
fn mount_without_key_never_looks_one_up() {
    let c = mount_command("abcd", "/mnt/persistent", false);
    assert_eq!(c.args, vec!["mount", "-o", "degraded", "UUID=abcd", "/mnt/persistent", "--key_location=fail"]);
}

#[test]
fn cleanup_unmounts_lazily() {
    let c = unmount_command("/mnt/persistent");
    assert_eq!(c.program, "umount");
    assert_eq!(c.args, vec!["--lazy", "/mnt/persistent"]);
}

#[test]
fn pool_paths_by_uuid() {
    assert_eq!(uuid_device_path("abcd"), "/dev/disk/by-uuid/abcd");
    assert_eq!(sysfs_pool_dir("abcd"), "/sys/fs/bcachefs/abcd");
}

#[test]
fn member_entries_are_dev_with_a_number() {
    assert_eq!(member_index("dev-0"), Some(0));
    assert_eq!(member_index("dev-12"), Some(12));
    assert_eq!(member_index("dev-+3"), Some(3));
    assert_eq!(member_index("dev-"), None);
    assert_eq!(member_index("dev-x"), None);
    assert_eq!(member_index("label"), None);
    assert_eq!(member_index("xdev-1"), None);
}

#[test]
fn labels_name_tier_and_number() {
    assert_eq!(label(Some(true), 3), "hdd.d3");
    assert_eq!(label(None, 0), "hdd.d0");
    assert_eq!(label(Some(false), 12), "ssd.d12");
}

#[test]
fn format_needs_two_devices() {
    assert_eq!(format_command("u", false, &vec![]).err(), Some(FormatError::TooFewDevices));
    assert_eq!(format_command("u", false, &vec![dev("/dev/sda", None)]).err(), Some(FormatError::TooFewDevices));
}

#[test]
fn format_mixed_pool() {
    let c = format_command("u", false, &vec![dev("/dev/sda", Some(true)), dev("/dev/nvme0n1", Some(false))])
        .ok()
        .unwrap();
    assert_eq!(c.program, "bcachefs");
    assert_eq!(
        c.args,
        vec![
            "format",
            "--uuid=u",
            "--force",
            "--replicas=2",
            "--label=hdd.d0",
            "/dev/sda",
            "--label=ssd.d1",
            "/dev/nvme0n1",
            "--promote_target=ssd",
            "--foreground_target=ssd",
            "--background_target=hdd",
        ]
    );
}

#[test]
fn format_encrypted_hard_disks_only() {
    let c = format_command("u", true, &vec![dev("/dev/sda", None), dev("/dev/sdb", Some(true)), dev("/dev/sdc", None)])
        .ok()
        .unwrap();
    assert_eq!(
        c.args,
        vec![
            "format",
            "--uuid=u",
            "--force",
            "--replicas=2",
            "--encrypted",
            "--label=hdd.d0",
            "/dev/sda",
            "--label=hdd.d1",
            "/dev/sdb",
            "--label=hdd.d2",
            "/dev/sdc",
            "--background_target=hdd",
        ]
    );
}

#[test]
fn format_solid_state_only() {
    let c = format_command("u", false, &vec![dev("/dev/a", Some(false)), dev("/dev/b", Some(false))]).ok().unwrap();
    assert_eq!(
        c.args,
        vec![
            "format",
            "--uuid=u",
            "--force",
            "--replicas=2",
            "--label=ssd.d0",
            "/dev/a",
            "--label=ssd.d1",
            "/dev/b",
            "--promote_target=ssd",
            "--foreground_target=ssd",
        ]
    );
}
