use volumesetup::config::{Config, FilesystemMode};
use volumesetup::device::LsblkDevice;
use volumesetup::volume::{ensure_dir_targets, resolve_mount_path, VolumeAction, VolumeEvent, VolumeOutcome, VolumeRun};

fn config_with_mountpoint(m: Option<&str>) -> Config<String> {
    Config { mountpoint: m.map(|s| s.to_string()), fs: None, uuid: None, encryption: None, ensure_dirs: None }
}

#[test]
fn default_mount_path() {
    assert_eq!(resolve_mount_path(&config_with_mountpoint(None)).ok(), Some("/mnt/persistent".to_string()));
}

#[test]
fn absolute_mount_path_is_normalised() {
    assert_eq!(resolve_mount_path(&config_with_mountpoint(Some("/srv/./data/../vol"))).ok(), Some("/srv/vol".to_string()));
    assert_eq!(resolve_mount_path(&config_with_mountpoint(Some("/srv//vol/"))).ok(), Some("/srv/vol".to_string()));
}

#[test]
fn relative_mount_path_is_made_absolute() {
    let got = resolve_mount_path(&config_with_mountpoint(Some("vol"))).ok().unwrap();
    assert!(got.starts_with('/'));
    assert!(got.ends_with("/vol"));
}

#[test]
fn dir_targets_below_mount_path() {
    let dirs = Some(vec!["home".to_string(), "var/lib".to_string()]);
    assert_eq!(ensure_dir_targets("/mnt/persistent", &dirs), vec!["/mnt/persistent/home", "/mnt/persistent/var/lib"]);
    assert!(ensure_dir_targets("/mnt/persistent", &None).is_empty());
}

#[test]
fn mounted_volume_is_left_alone() {
    let (mut r, a) = VolumeRun::start("/mnt/p".to_string(), FilesystemMode::Bcachefs, vec![]);
    assert!(matches!(a, VolumeAction::ListBlocks));
    let blocks = vec![LsblkDevice { path: "/dev/sda".to_string(), rota: None, mountpoints: vec![Some("/mnt/p".to_string())] }];
    match r.step(VolumeEvent::BlocksListed(blocks)) {
        VolumeAction::Finish { outcome } => assert_eq!(outcome, VolumeOutcome::AlreadyMounted),
        _ => panic!(),
    }
}

#[test]
fn volume_is_set_up_then_dirs_created_in_order() {
    let (mut r, _) = VolumeRun::start("/mnt/p".to_string(), FilesystemMode::Ext4, vec!["/mnt/p/a".to_string(), "/mnt/p/b".to_string()]);
    let blocks = vec![LsblkDevice { path: "/dev/sda".to_string(), rota: None, mountpoints: vec![None] }];
    match r.step(VolumeEvent::BlocksListed(blocks)) {
        VolumeAction::SetUpFilesystem { mode, blocks } => {
            assert_eq!(mode, FilesystemMode::Ext4);
            assert_eq!(blocks.len(), 1);
        },
        _ => panic!(),
    }
    match r.step(VolumeEvent::FilesystemReady) {
        VolumeAction::CreateDir { path } => assert_eq!(path, "/mnt/p/a"),
        _ => panic!(),
    }
    match r.step(VolumeEvent::DirCreated) {
        VolumeAction::CreateDir { path } => assert_eq!(path, "/mnt/p/b"),
        _ => panic!(),
    }
    match r.step(VolumeEvent::DirCreated) {
        VolumeAction::Finish { outcome } => assert_eq!(outcome, VolumeOutcome::Done),
        _ => panic!(),
    }
}

#[test]
fn failed_step_ends_the_run() {
    let (mut r, _) = VolumeRun::start("/mnt/p".to_string(), FilesystemMode::Ext4, vec!["/mnt/p/a".to_string()]);
    r.step(VolumeEvent::BlocksListed(vec![]));
    match r.step(VolumeEvent::Failed) {
        VolumeAction::Finish { outcome } => assert_eq!(outcome, VolumeOutcome::Failed),
        _ => panic!(),
    }
    assert!(r.step_checked(VolumeEvent::DirCreated).is_none());
}
