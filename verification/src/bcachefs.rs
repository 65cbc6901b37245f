//! The `bcachefs` commands that set up and maintain the volume's pool, and
//! the summary of the pool's members that they are planned from.

use vstd::prelude::*;
use vstd::string::*;
use crate::command::{CommandLine, CommandView, command_view};
use crate::device::{LsblkDevice, DeviceView, devices_view};
use crate::text::{decimal, decimal_string, parse_usize, parse_usize_spec, strip_prefix, lemma_decimal_injective};

verus! {

/// What a planned command is for; each kind fails with its own message.
#[derive(Clone, Copy, Debug, PartialEq, Eq, Structural)]
pub enum Step {
    Mount,
    Format,
    AddDevice,
    RemoveDevice,
    Rereplicate,
    Unmount,
}

/// A command, and what it is for.
pub struct PlannedCommand {
    pub command: CommandLine,
    pub step: Step,
}

/// The mathematical content of a [`PlannedCommand`].
pub struct PlannedView {
    pub command: CommandView,
    pub step: Step,
}

impl View for PlannedCommand {
    type V = PlannedView;

    open spec fn view(&self) -> PlannedView {
        PlannedView { command: self.command@, step: self.step }
    }
}

/// The views of a list of planned commands.
pub open spec fn plan_view(v: Seq<PlannedCommand>) -> Seq<PlannedView> {
    v.map_values(|p: PlannedCommand| p@)
}

/// A device counts as a hard disk where it is rotational or unknown.
pub open spec fn spec_is_hdd(rota: Option<bool>) -> bool {
    match rota {
        Some(r) => r,
        None => true,
    }
}

/// The tier that a device is labelled with.
pub open spec fn tier(rota: Option<bool>) -> Seq<char> {
    if spec_is_hdd(rota) {
        "hdd"@
    } else {
        "ssd"@
    }
}

/// The label of a device in the pool: its tier and its number.
pub open spec fn spec_label(rota: Option<bool>, n: nat) -> Seq<char> {
    tier(rota) + ".d"@ + decimal(n)
}

/// `bcachefs mount`: degraded, by UUID, with the key read from stdin where
/// there is one and no key lookup otherwise.
pub open spec fn spec_mount_command(uuid: Seq<char>, mount_path: Seq<char>, has_key: bool) -> CommandView {
    command_view(
        "bcachefs"@,
        seq![
            "mount"@,
            "-o"@,
            "degraded"@,
            "UUID="@ + uuid,
            mount_path,
            if has_key {
                "--key_location=stdin"@
            } else {
                "--key_location=fail"@
            },
        ],
    )
}

/// `umount --lazy`, the cleanup after a failed setup.
pub open spec fn spec_unmount_command(mount_path: Seq<char>) -> CommandView {
    command_view("umount"@, seq!["--lazy"@, mount_path])
}

/// `bcachefs device add`, with the label numbered `n`.
pub open spec fn spec_add_command(dev: DeviceView, n: nat, mount_path: Seq<char>) -> CommandView {
    command_view(
        "bcachefs"@,
        seq!["device"@, "add"@, "--label"@, spec_label(dev.rota, n), mount_path, dev.path],
    )
}

/// `bcachefs device remove` for the member numbered `index`.
pub open spec fn spec_remove_command(index: usize, mount_path: Seq<char>) -> CommandView {
    command_view("bcachefs"@, seq!["device"@, "remove"@, decimal(index as nat), mount_path])
}

/// `bcachefs data rereplicate`.
pub open spec fn spec_rereplicate_command(mount_path: Seq<char>) -> CommandView {
    command_view("bcachefs"@, seq!["data"@, "rereplicate"@, mount_path])
}

/// The device node of the filesystem with UUID `uuid`.
pub open spec fn spec_uuid_device_path(uuid: Seq<char>) -> Seq<char> {
    "/dev/disk/by-uuid/"@ + uuid
}

/// The sysfs directory of the mounted pool with UUID `uuid`.
pub open spec fn spec_sysfs_pool_dir(uuid: Seq<char>) -> Seq<char> {
    "/sys/fs/bcachefs/"@ + uuid
}

/// The member number in the name of a pool's sysfs entry: entries named
/// `dev-<n>` are members, others are not.
pub open spec fn spec_member_index(name: Seq<char>) -> Option<usize> {
    if "dev-"@.is_prefix_of(name) {
        parse_usize_spec(name.skip("dev-"@.len() as int))
    } else {
        None
    }
}

/// Builds the mount command.
pub fn mount_command(uuid: &str, mount_path: &str, has_key: bool) -> (c: CommandLine)
    ensures
        c@ == spec_mount_command(uuid@, mount_path@, has_key),
{
    let mut c = CommandLine::new("bcachefs");
    c.arg_str("mount");
    c.arg_str("-o");
    c.arg_str("degraded");
    c.arg(String::from_str("UUID=").concat(uuid));
    c.arg_str(mount_path);
    if has_key {
        c.arg_str("--key_location=stdin");
    } else {
        c.arg_str("--key_location=fail");
    }
    assert(c@.args =~= spec_mount_command(uuid@, mount_path@, has_key).args);
    c
}

/// Builds the cleanup command that lazily unmounts `mount_path`.
pub fn unmount_command(mount_path: &str) -> (c: CommandLine)
    ensures
        c@ == spec_unmount_command(mount_path@),
{
    let mut c = CommandLine::new("umount");
    c.arg_str("--lazy");
    c.arg_str(mount_path);
    assert(c@.args =~= spec_unmount_command(mount_path@).args);
    c
}

/// The device node of the filesystem with UUID `uuid`.
pub fn uuid_device_path(uuid: &str) -> (p: String)
    ensures
        p@ == spec_uuid_device_path(uuid@),
{
    String::from_str("/dev/disk/by-uuid/").concat(uuid)
}

/// The sysfs directory of the mounted pool with UUID `uuid`.
pub fn sysfs_pool_dir(uuid: &str) -> (p: String)
    ensures
        p@ == spec_sysfs_pool_dir(uuid@),
{
    String::from_str("/sys/fs/bcachefs/").concat(uuid)
}

/// The member number of a pool's sysfs entry, if it is a member entry
/// whose number reads as a `usize`.
pub fn member_index(name: &str) -> (r: Option<usize>)
    ensures
        r == spec_member_index(name@),
{
    match strip_prefix(name, "dev-") {
        Some(rest) => parse_usize(rest),
        None => None,
    }
}

/// The label of a device: its tier and its number.
pub fn label(rota: Option<bool>, n: usize) -> (s: String)
    ensures
        s@ == spec_label(rota, n as nat),
{
    let hdd = match rota {
        Some(r) => r,
        None => true,
    };
    let t = if hdd {
        String::from_str("hdd")
    } else {
        String::from_str("ssd")
    };
    let s = t.concat(".d");
    let num = decimal_string(n);
    s.concat(num.as_str())
}

/// Two labels with different numbers differ, whatever their tiers.
pub proof fn lemma_label_number_distinguishes(r1: Option<bool>, n1: nat, r2: Option<bool>, n2: nat)
    requires
        spec_label(r1, n1) == spec_label(r2, n2),
    ensures
        n1 == n2,
{
    reveal_strlit("hdd");
    reveal_strlit("ssd");
    reveal_strlit(".d");
    assert(spec_label(r1, n1).skip(5) =~= decimal(n1));
    assert(spec_label(r2, n2).skip(5) =~= decimal(n2));
    lemma_decimal_injective(n1, n2);
}

/// The arguments that put each device into a new pool: its label, numbered
/// by its position, then its path.
pub open spec fn format_device_args(devs: Seq<DeviceView>) -> Seq<Seq<char>>
    decreases devs.len(),
{
    if devs.len() == 0 {
        seq![]
    } else {
        format_device_args(devs.drop_last()) + seq![
            "--label="@ + spec_label(devs.last().rota, (devs.len() - 1) as nat),
            devs.last().path,
        ]
    }
}

/// Some device is a hard disk.
pub open spec fn has_hdd(devs: Seq<DeviceView>) -> bool {
    exists|i: int| 0 <= i < devs.len() && spec_is_hdd(#[trigger] devs[i].rota)
}

/// Some device is a solid-state disk.
pub open spec fn has_ssd(devs: Seq<DeviceView>) -> bool {
    exists|i: int| 0 <= i < devs.len() && !spec_is_hdd(#[trigger] devs[i].rota)
}

/// `bcachefs format` of a new pool with UUID `uuid` over `devs`, with two
/// replicas: encrypted where asked, each device labelled by its tier, the
/// solid-state disks (if any) as promote and foreground target and the hard
/// disks (if any) as background target.
pub open spec fn spec_format_command(uuid: Seq<char>, encrypted: bool, devs: Seq<DeviceView>) -> CommandView {
    command_view(
        "bcachefs"@,
        seq!["format"@, "--uuid="@ + uuid, "--force"@, "--replicas=2"@] + (if encrypted {
            seq!["--encrypted"@]
        } else {
            seq![]
        }) + format_device_args(devs) + (if has_ssd(devs) {
            seq!["--promote_target=ssd"@, "--foreground_target=ssd"@]
        } else {
            seq![]
        }) + (if has_hdd(devs) {
            seq!["--background_target=hdd"@]
        } else {
            seq![]
        }),
    )
}

/// Why a new pool cannot be made.
#[derive(Clone, Copy, Debug, PartialEq, Eq, Structural)]
pub enum FormatError {
    /// There are fewer than the two unused devices that two replicas need.
    TooFewDevices,
}

/// The command that makes a new pool with UUID `uuid` over the `unused`
/// devices; a pool with two replicas needs at least two of them.
pub fn format_command(uuid: &str, encrypted: bool, unused: &Vec<LsblkDevice>) -> (r: Result<CommandLine, FormatError>)
    ensures
        r is Err <==> unused.len() < 2,
        r matches Ok(c) ==> c@ == spec_format_command(uuid@, encrypted, devices_view(unused@)),
{
    if unused.len() < 2 {
        return Err(FormatError::TooFewDevices);
    }
    let ghost dv = devices_view(unused@);
    let mut c = CommandLine::new("bcachefs");
    c.arg_str("format");
    c.arg(String::from_str("--uuid=").concat(uuid));
    c.arg_str("--force");
    c.arg_str("--replicas=2");
    if encrypted {
        c.arg_str("--encrypted");
    }
    let ghost head = c@.args;
    let mut any_hdd = false;
    let mut any_ssd = false;
    let mut i: usize = 0;
    while i < unused.len()
        invariant
            i <= unused.len(),
            dv == devices_view(unused@),
            c@.program == "bcachefs"@,
            c@.args =~= head + format_device_args(dv.take(i as int)),
            any_hdd == has_hdd(dv.take(i as int)),
            any_ssd == has_ssd(dv.take(i as int)),
        decreases unused.len() - i,
    {
        let dev = &unused[i];
        assert(dv[i as int] == dev@);
        let ghost prev = dv.take(i as int);
        let ghost next = dv.take(i + 1);
        assert(next.drop_last() =~= prev);
        assert(next.last() == dev@);
        let hdd = match dev.rota {
            Some(r) => r,
            None => true,
        };
        c.arg(String::from_str("--label=").concat(label(dev.rota, i).as_str()));
        c.arg(dev.path.clone());
        if hdd {
            any_hdd = true;
        } else {
            any_ssd = true;
        }
        assert(has_hdd(next) == (has_hdd(prev) || spec_is_hdd(dev.rota))) by {
            if has_hdd(next) && !spec_is_hdd(dev.rota) {
                let k = choose|k: int| 0 <= k < next.len() && spec_is_hdd(#[trigger] next[k].rota);
                assert(next[k] == prev[k]);
            }
            if has_hdd(prev) {
                let k = choose|k: int| 0 <= k < prev.len() && spec_is_hdd(#[trigger] prev[k].rota);
                assert(next[k] == prev[k]);
            }
            if spec_is_hdd(dev.rota) {
                assert(next[i as int] == dev@);
                assert(spec_is_hdd(next[i as int].rota));
            }
        }
        assert(has_ssd(next) == (has_ssd(prev) || !spec_is_hdd(dev.rota))) by {
            if has_ssd(next) && spec_is_hdd(dev.rota) {
                let k = choose|k: int| 0 <= k < next.len() && !spec_is_hdd(#[trigger] next[k].rota);
                assert(next[k] == prev[k]);
            }
            if has_ssd(prev) {
                let k = choose|k: int| 0 <= k < prev.len() && !spec_is_hdd(#[trigger] prev[k].rota);
                assert(next[k] == prev[k]);
            }
            if !spec_is_hdd(dev.rota) {
                assert(next[i as int] == dev@);
                assert(!spec_is_hdd(next[i as int].rota));
            }
        }
        i = i + 1;
    }
    assert(dv.take(unused.len() as int) =~= dv);
    if any_ssd {
        c.arg_str("--promote_target=ssd");
        c.arg_str("--foreground_target=ssd");
    }
    if any_hdd {
        c.arg_str("--background_target=hdd");
    }
    assert(c@.args =~= spec_format_command(uuid@, encrypted, dv).args);
    Ok(c)
}

/// A new pool takes every device once, in order: the argument pair at
/// position `i` labels device `i` with number `i` and names its path, so no
/// two devices share a label.
pub proof fn lemma_format_device_args(devs: Seq<DeviceView>)
    ensures
        format_device_args(devs).len() == 2 * devs.len(),
        forall|i: int|
            0 <= i < devs.len() ==> {
                &&& #[trigger] format_device_args(devs)[2 * i] == "--label="@ + spec_label(devs[i].rota, i as nat)
                &&& format_device_args(devs)[2 * i + 1] == devs[i].path
            },
        forall|i: int, j: int|
            0 <= i < devs.len() && 0 <= j < devs.len() && i != j ==> #[trigger] format_device_args(devs)[2 * i]
                != #[trigger] format_device_args(devs)[2 * j],
    decreases devs.len(),
{
    if devs.len() > 0 {
        let prev = devs.drop_last();
        lemma_format_device_args(prev);
        let a = format_device_args(devs);
        let p = format_device_args(prev);
        assert forall|i: int| 0 <= i < devs.len() implies {
            &&& #[trigger] a[2 * i] == "--label="@ + spec_label(devs[i].rota, i as nat)
            &&& a[2 * i + 1] == devs[i].path
        } by {
            if i < prev.len() {
                assert(a[2 * i] == p[2 * i]);
                assert(a[2 * i + 1] == p[2 * i + 1]);
                assert(prev[i] == devs[i]);
            } else {
                assert(devs.last() == devs[i]);
                assert(a[2 * i] == a[p.len() as int]);
                assert(a[2 * i + 1] == a[p.len() + 1int]);
            }
        }
        assert forall|i: int, j: int|
            0 <= i < devs.len() && 0 <= j < devs.len() && i != j implies #[trigger] a[2 * i] != #[trigger] a[2 * j] by {
            if a[2 * i] == a[2 * j] {
                reveal_strlit("--label=");
                let li = spec_label(devs[i].rota, i as nat);
                let lj = spec_label(devs[j].rota, j as nat);
                assert(a[2 * i].skip(8) =~= li);
                assert(a[2 * j].skip(8) =~= lj);
                lemma_label_number_distinguishes(devs[i].rota, i as nat, devs[j].rota, j as nat);
            }
        }
    }
}

/// The end of a format command names the tiers the new pool has: after the
/// fixed arguments, the optional `--encrypted` and the two arguments per
/// device come `--promote_target=ssd --foreground_target=ssd` exactly when
/// some device is known to be solid-state (at any position), then
/// `--background_target=hdd` exactly when some device is rotational or of
/// unknown kind, and nothing else.
pub proof fn lemma_format_targets(uuid: Seq<char>, encrypted: bool, devs: Seq<DeviceView>)
    ensures
        ({
            let args = spec_format_command(uuid, encrypted, devs).args;
            let head = 4 + (if encrypted { 1int } else { 0int }) + 2 * devs.len();
            let ssd = exists|i: int| 0 <= i < devs.len() && devs[i].rota == Some(false);
            let hdd = exists|i: int| 0 <= i < devs.len() && devs[i].rota != Some(false);
            &&& head <= args.len()
            &&& args.subrange(head, args.len() as int) == (if ssd {
                seq!["--promote_target=ssd"@, "--foreground_target=ssd"@]
            } else {
                seq![]
            }) + (if hdd {
                seq!["--background_target=hdd"@]
            } else {
                seq![]
            })
        }),
{
    lemma_format_device_args(devs);
    let ssd = exists|i: int| 0 <= i < devs.len() && devs[i].rota == Some(false);
    let hdd = exists|i: int| 0 <= i < devs.len() && devs[i].rota != Some(false);
    assert(ssd == has_ssd(devs)) by {
        if ssd {
            let i = choose|i: int| 0 <= i < devs.len() && devs[i].rota == Some(false);
            assert(!spec_is_hdd(devs[i].rota));
        }
        if has_ssd(devs) {
            let i = choose|i: int| 0 <= i < devs.len() && !spec_is_hdd(#[trigger] devs[i].rota);
            assert(devs[i].rota == Some(false));
        }
    }
    assert(hdd == has_hdd(devs)) by {
        if hdd {
            let i = choose|i: int| 0 <= i < devs.len() && devs[i].rota != Some(false);
            assert(spec_is_hdd(devs[i].rota));
        }
        if has_hdd(devs) {
            let i = choose|i: int| 0 <= i < devs.len() && spec_is_hdd(#[trigger] devs[i].rota);
            assert(devs[i].rota != Some(false));
        }
    }
    let args = spec_format_command(uuid, encrypted, devs).args;
    let head = 4 + (if encrypted { 1int } else { 0int }) + 2 * devs.len();
    let pre = seq!["format"@, "--uuid="@ + uuid, "--force"@, "--replicas=2"@] + (if encrypted {
        seq!["--encrypted"@]
    } else {
        seq![]
    }) + format_device_args(devs);
    let tail = (if has_ssd(devs) {
        seq!["--promote_target=ssd"@, "--foreground_target=ssd"@]
    } else {
        seq![]
    }) + (if has_hdd(devs) {
        seq!["--background_target=hdd"@]
    } else {
        seq![]
    });
    assert(args =~= pre + tail);
    assert(pre.len() == head);
    assert(args.subrange(head, args.len() as int) =~= tail);
}

} // verus!
