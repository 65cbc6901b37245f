use volumesetup::config::{Config, EncryptionMode, FilesystemMode};
use volumesetup::device::{already_mounted, candidate_listing, LsblkDevice};
use volumesetup::pool::block_link_name;
use volumesetup::volume::ensure_dir_targets;

fn bare_config() -> Config<String> {
    Config { mountpoint: None, fs: None, uuid: None, encryption: None, ensure_dirs: None }
}

fn device(path: &str, rota: Option<bool>, mountpoints: Vec<Option<&str>>) -> LsblkDevice {
    LsblkDevice {
        path: path.to_string(),
        rota,
        mountpoints: mountpoints.into_iter().map(|m| m.map(|s| s.to_string())).collect(),
    }
}

#[test]
fn config_defaults() {
    let c = bare_config();
    assert_eq!(c.filesystem(), FilesystemMode::Ext4);
    assert_eq!(c.encryption, None);
    assert_eq!(c.mountpoint_or_default(), "/mnt/persistent");
    assert_eq!(c.pool_uuid("outer-uuid"), "outer-uuid");
}

#[test]
fn config_values_override_defaults() {
    let c: Config<String> = Config {
        mountpoint: Some("/data".to_string()),
        fs: Some(FilesystemMode::Bcachefs),
        uuid: Some("1234".to_string()),
        encryption: Some(EncryptionMode::IndirectKey { key_path: "/k".to_string(), key_mode: "tpm".to_string() }),
        ensure_dirs: Some(vec!["a".to_string()]),
    };
    assert_eq!(c.filesystem(), FilesystemMode::Bcachefs);
    assert_eq!(c.mountpoint_or_default(), "/data");
    assert_eq!(c.pool_uuid("outer-uuid"), "1234");
}

#[test]
fn mounted_when_some_device_has_the_mountpoint() {
    let blocks = vec![
        device("/dev/sda", Some(true), vec![None]),
        device("/dev/sdb", Some(false), vec![Some("/boot"), Some("/mnt/persistent")]),
    ];
    assert!(already_mounted(&blocks, &"/mnt/persistent".to_string()));
    assert!(already_mounted(&blocks, &"/boot".to_string()));
}

#[test]
fn not_mounted_otherwise() {
    let blocks = vec![device("/dev/sda", None, vec![None, Some("/mnt/persistent/sub")])];
    assert!(!already_mounted(&blocks, &"/mnt/persistent".to_string()));
    assert!(!already_mounted(&vec![], &"/mnt/persistent".to_string()));
}

#[test]
fn file_names_of_device_paths() {
    assert_eq!(block_link_name("/dev/sda"), Some("sda".to_string()));
    assert_eq!(block_link_name("../../block/nvme0n1"), Some("nvme0n1".to_string()));
    assert_eq!(block_link_name("/"), None);
    assert_eq!(block_link_name("/dev/.."), None);
}

#[test]
fn joining_relative_and_absolute_paths() {
    let dirs = Some(vec!["home".to_string(), "a/b".to_string(), "/etc".to_string()]);
    assert_eq!(ensure_dir_targets("/mnt/persistent", &dirs), vec!["/mnt/persistent/home", "/mnt/persistent/a/b", "/etc"]);
    assert_eq!(ensure_dir_targets("/", &Some(vec!["x".to_string()])), vec!["/x"]);
}

#[test]
fn candidates_are_listed_one_per_line() {
    let devs = vec![device("/dev/sda", None, vec![]), device("/dev/sdb", None, vec![])];
    assert_eq!(candidate_listing(&devs), "\"/dev/sda\"\n\"/dev/sdb\"");
    assert_eq!(candidate_listing(&vec![]), "");
    let quoted = vec![device("/dev/a\"b", None, vec![])];
    assert_eq!(candidate_listing(&quoted), "\"/dev/a\\\"b\"");
}
