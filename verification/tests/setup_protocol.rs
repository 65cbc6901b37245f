use volumesetup::bcachefs::Step;
use volumesetup::config::EncryptionMode;
use volumesetup::device::LsblkDevice;
use volumesetup::setup::{key_request, pool_members, Action, Event, KeyRequest, Outcome, PoolSetup};

fn dev(path: &str, rota: Option<bool>) -> LsblkDevice {
    LsblkDevice { path: path.to_string(), rota, mountpoints: vec![] }
}

fn expect_run(a: Action<String>) -> (String, Vec<String>, Option<String>, Step) {
    match a {
        Action::Run { command, stdin, step } => (command.program, command.args, stdin, step),
        _ => panic!("expected a command"),
    }
}

#[test]
fn key_sources_by_encryption() {
    assert_eq!(key_request(EncryptionMode::<String>::Unencrypted), None);
    assert_eq!(
        key_request(EncryptionMode::DirectKey { key_mode: "tpm".to_string() }),
        Some(KeyRequest::Shared { key_mode: "tpm".to_string() })
    );
    assert_eq!(
        key_request(EncryptionMode::IndirectKey { key_path: "/k".to_string(), key_mode: "pw".to_string() }),
        Some(KeyRequest::Private { key_path: "/k".to_string(), key_mode: "pw".to_string() })
    );
}

#[test]
fn members_are_dev_entries() {
    let entries = vec![
        Some("dev-0".to_string()),
        None,
        Some("label".to_string()),
        Some("dev-3".to_string()),
        Some("dev-x".to_string()),
    ];
    assert_eq!(pool_members(&entries), vec![(0, "dev-0".to_string()), (3, "dev-3".to_string())]);
}

#[test]
fn existing_encrypted_pool_is_mounted_and_updated() {
    let (mut s, a) = PoolSetup::start("u1".to_string(), "/mnt/p".to_string(), Some(EncryptionMode::DirectKey { key_mode: "tpm".to_string() }));
    match a {
        Action::CheckPoolExists { path } => assert_eq!(path, "/dev/disk/by-uuid/u1"),
        _ => panic!(),
    }
    match s.step(Event::PoolExists(true)) {
        Action::FetchKey { request } => assert_eq!(request, KeyRequest::Shared { key_mode: "tpm".to_string() }),
        _ => panic!(),
    }
    let (p, args, stdin, step) = expect_run(s.step(Event::KeyFetched("secret".to_string())));
    assert_eq!(p, "bcachefs");
    assert_eq!(args, vec!["mount", "-o", "degraded", "UUID=u1", "/mnt/p", "--key_location=stdin"]);
    assert_eq!(stdin, Some("secret".to_string()));
    assert_eq!(step, Step::Mount);
    match s.step(Event::CommandSucceeded) {
        Action::ListPool { dir } => assert_eq!(dir, "/sys/fs/bcachefs/u1"),
        _ => panic!(),
    }
    let listing = vec![Some("dev-0".to_string()), Some("dev-1".to_string()), Some("uuid".to_string())];
    match s.step(Event::PoolListed(listing)) {
        Action::InspectMember { entry } => assert_eq!(entry, "dev-0"),
        _ => panic!(),
    }
    match s.step(Event::MemberInspected(Some("sda".to_string()))) {
        Action::InspectMember { entry } => assert_eq!(entry, "dev-1"),
        _ => panic!(),
    }
    match s.step(Event::MemberInspected(None)) {
        Action::FindUnused => {},
        _ => panic!(),
    }
    let (_, args, stdin, step) = expect_run(s.step(Event::UnusedFound(vec![dev("/dev/sda", None), dev("/dev/sdb", Some(false))])));
    assert_eq!(args, vec!["device", "add", "--label", "ssd.d2", "/mnt/p", "/dev/sdb"]);
    assert_eq!(stdin, None);
    assert_eq!(step, Step::AddDevice);
    let (_, args, _, step) = expect_run(s.step(Event::CommandSucceeded));
    assert_eq!(args, vec!["device", "remove", "1", "/mnt/p"]);
    assert_eq!(step, Step::RemoveDevice);
    let (_, args, _, step) = expect_run(s.step(Event::CommandSucceeded));
    assert_eq!(args, vec!["data", "rereplicate", "/mnt/p"]);
    assert_eq!(step, Step::Rereplicate);
    match s.step(Event::CommandSucceeded) {
        Action::Finish { outcome } => assert_eq!(outcome, Outcome::Succeeded),
        _ => panic!(),
    }
}

#[test]
fn existing_plain_pool_with_nothing_to_do() {
    let (mut s, _) = PoolSetup::<String>::start("u".to_string(), "/m".to_string(), None);
    let (_, args, stdin, _) = expect_run(s.step(Event::PoolExists(true)));
    assert_eq!(args, vec!["mount", "-o", "degraded", "UUID=u", "/m", "--key_location=fail"]);
    assert_eq!(stdin, None);
    s.step(Event::CommandSucceeded);
    match s.step(Event::PoolListed(vec![])) {
        Action::FindUnused => {},
        _ => panic!(),
    }
    match s.step(Event::UnusedFound(vec![])) {
        Action::Finish { outcome } => assert_eq!(outcome, Outcome::Succeeded),
        _ => panic!(),
    }
}

#[test]
fn new_pool_is_formatted_then_mounted() {
    let (mut s, _) = PoolSetup::start("u".to_string(), "/m".to_string(), Some(EncryptionMode::IndirectKey { key_path: "/k".to_string(), key_mode: "pw".to_string() }));
    match s.step(Event::PoolExists(false)) {
        Action::FetchKey { request } => {
            assert_eq!(request, KeyRequest::Private { key_path: "/k".to_string(), key_mode: "pw".to_string() })
        },
        _ => panic!(),
    }
    match s.step(Event::KeyFetched("k".to_string())) {
        Action::FindUnused => {},
        _ => panic!(),
    }
    let (_, args, stdin, step) = expect_run(s.step(Event::UnusedFound(vec![dev("/dev/a", None), dev("/dev/b", None)])));
    assert_eq!(step, Step::Format);
    assert_eq!(stdin, Some("k".to_string()));
    assert_eq!(
        args,
        vec![
            "format", "--uuid=u", "--force", "--replicas=2", "--encrypted", "--label=hdd.d0", "/dev/a",
            "--label=hdd.d1", "/dev/b", "--background_target=hdd",
        ]
    );
    let (_, args, stdin, step) = expect_run(s.step(Event::CommandSucceeded));
    assert_eq!(step, Step::Mount);
    assert_eq!(stdin, Some("k".to_string()));
    assert_eq!(args, vec!["mount", "-o", "degraded", "UUID=u", "/m", "--key_location=stdin"]);
    match s.step(Event::CommandSucceeded) {
        Action::Finish { outcome } => assert_eq!(outcome, Outcome::Succeeded),
        _ => panic!(),
    }
}

#[test]
fn too_few_devices_cleans_up_and_fails() {
    let (mut s, _) = PoolSetup::<String>::start("u".to_string(), "/m".to_string(), None);
    s.step(Event::PoolExists(false));
    let (p, args, _, step) = expect_run(s.step(Event::UnusedFound(vec![dev("/dev/a", None)])));
    assert_eq!(p, "umount");
    assert_eq!(args, vec!["--lazy", "/m"]);
    assert_eq!(step, Step::Unmount);
    match s.step(Event::Failed) {
        Action::Finish { outcome } => assert_eq!(outcome, Outcome::TooFewDevices),
        _ => panic!(),
    }
}

#[test]
fn failure_cleans_up_then_ends_failed() {
    let (mut s, _) = PoolSetup::start("u".to_string(), "/m".to_string(), Some(EncryptionMode::DirectKey { key_mode: "tpm".to_string() }));
    s.step(Event::PoolExists(true));
    let (p, args, _, step) = expect_run(s.step(Event::Failed));
    assert_eq!((p.as_str(), step), ("umount", Step::Unmount));
    assert_eq!(args, vec!["--lazy", "/m"]);
    match s.step(Event::CommandSucceeded) {
        Action::Finish { outcome } => assert_eq!(outcome, Outcome::Failed),
        _ => panic!(),
    }
}

#[test]
fn out_of_turn_reports_are_refused() {
    let (mut s, _) = PoolSetup::<String>::start("u".to_string(), "/m".to_string(), None);
    assert!(s.step_checked(Event::CommandSucceeded).is_none());
    assert!(s.step_checked(Event::KeyFetched("k".to_string())).is_none());
    assert!(s.step_checked(Event::PoolExists(true)).is_some());
    s.step(Event::CommandSucceeded);
    s.step(Event::PoolListed(vec![]));
    assert!(s.step_checked(Event::UnusedFound(vec![dev("/", None)])).is_none());
    assert!(s.step_checked(Event::UnusedFound(vec![dev("/dev/x", None)])).is_some());
}

#[test]
fn explicitly_unencrypted_pool_needs_no_key() {
    let (mut s, _) = PoolSetup::start("u".to_string(), "/m".to_string(), Some(EncryptionMode::<String>::Unencrypted));
    let (_, args, stdin, step) = expect_run(s.step(Event::PoolExists(true)));
    assert_eq!(step, Step::Mount);
    assert_eq!(stdin, None);
    assert_eq!(args.last().unwrap(), "--key_location=fail");
}
