//! What the pool's sysfs entries say about its members, and the commands
//! that bring a mounted pool up to date with the unused devices.

use vstd::prelude::*;
use vstd::string::*;
use crate::command::{CommandLine, strings_view};
use crate::config::option_view;
use crate::device::{LsblkDevice, DeviceView, devices_view, file_name_of, path_file_name};
use crate::bcachefs::{
    PlannedCommand, PlannedView, Step, plan_view, label, spec_add_command, spec_remove_command,
    spec_rereplicate_command, spec_label, lemma_label_number_distinguishes, tier,
};
use crate::command::command_view;
use crate::text::{decimal, decimal_string};

verus! {

/// The pool's members as read from sysfs: the greatest member number seen,
/// the members whose block device is gone, and the names of the block
/// devices that members are on.
pub struct PoolScan {
    pub last_index: usize,
    pub missing: Vec<usize>,
    pub in_use: Vec<String>,
}

/// The mathematical content of a [`PoolScan`].
pub struct ScanView {
    pub last_index: usize,
    pub missing: Seq<usize>,
    pub in_use: Seq<Seq<char>>,
}

impl View for PoolScan {
    type V = ScanView;

    open spec fn view(&self) -> ScanView {
        ScanView { last_index: self.last_index, missing: self.missing@, in_use: strings_view(self.in_use@) }
    }
}

/// The summary before any member has been seen.
pub open spec fn empty_scan() -> ScanView {
    ScanView { last_index: 0, missing: seq![], in_use: seq![] }
}

/// The summary after member `index` is seen, on block device `block` or
/// with its block device missing.
pub open spec fn spec_record(s: ScanView, index: usize, block: Option<Seq<char>>) -> ScanView {
    ScanView {
        last_index: if index > s.last_index {
            index
        } else {
            s.last_index
        },
        missing: if block is None {
            s.missing.push(index)
        } else {
            s.missing
        },
        in_use: match block {
            Some(b) => s.in_use.push(b),
            None => s.in_use,
        },
    }
}

/// The summary of a sequence of members, each a number and the block
/// device it is on, seen in order.
pub open spec fn scan_of(members: Seq<(usize, Option<Seq<char>>)>) -> ScanView
    decreases members.len(),
{
    if members.len() == 0 {
        empty_scan()
    } else {
        spec_record(scan_of(members.drop_last()), members.last().0, members.last().1)
    }
}

/// The numbers of the members whose block device is missing, in order.
pub open spec fn missing_members(members: Seq<(usize, Option<Seq<char>>)>) -> Seq<usize>
    decreases members.len(),
{
    if members.len() == 0 {
        seq![]
    } else if members.last().1 is None {
        missing_members(members.drop_last()).push(members.last().0)
    } else {
        missing_members(members.drop_last())
    }
}

impl PoolScan {
    /// The summary before any member has been seen.
    pub fn new() -> (s: PoolScan)
        ensures
            s@ == empty_scan(),
    {
        let s = PoolScan { last_index: 0, missing: Vec::new(), in_use: Vec::new() };
        assert(strings_view(s.in_use@) =~= seq![]);
        s
    }

    /// Takes member `index` into the summary; `block_device` is the name of
    /// the block device it is on, `None` where that is missing.
    pub fn record(&mut self, index: usize, block_device: Option<String>)
        ensures
            final(self)@ == spec_record(old(self)@, index, option_view(block_device)),
    {
        if index > self.last_index {
            self.last_index = index;
        }
        match block_device {
            Some(b) => {
                let ghost bv = b@;
                self.in_use.push(b);
                assert(strings_view(self.in_use@) =~= strings_view(old(self).in_use@).push(bv));
            },
            None => {
                self.missing.push(index);
            },
        }
    }

    /// Whether a member is on the block device named `name`.
    pub fn uses(&self, name: &String) -> (r: bool)
        ensures
            r == self@.in_use.contains(name@),
    {
        let mut i: usize = 0;
        while i < self.in_use.len()
            invariant
                i <= self.in_use.len(),
                forall|j: int| 0 <= j < i ==> self@.in_use[j] != name@,
            decreases self.in_use.len() - i,
        {
            if self.in_use[i].eq(name) {
                assert(self@.in_use[i as int] == name@);
                return true;
            }
            i = i + 1;
        }
        false
    }
}

/// The name of the block device that a member's `block` link points to.
pub fn block_link_name(link: &str) -> (r: Option<String>)
    ensures
        option_view(r) == file_name_of(link@),
{
    path_file_name(link)
}

/// The unused devices that are not already members, in order.
pub open spec fn added_devices(unused: Seq<DeviceView>, in_use: Seq<Seq<char>>) -> Seq<DeviceView>
    decreases unused.len(),
{
    if unused.len() == 0 {
        seq![]
    } else if in_use.contains(file_name_of(unused.last().path).unwrap()) {
        added_devices(unused.drop_last(), in_use)
    } else {
        added_devices(unused.drop_last(), in_use).push(unused.last())
    }
}

/// Every device path has a file name.
pub open spec fn all_named(devices: Seq<DeviceView>) -> bool {
    forall|i: int| 0 <= i < devices.len() ==> (#[trigger] file_name_of(devices[i].path)) is Some
}

/// The commands that add `added` to the pool, numbered on from `last_index`.
pub open spec fn add_steps(added: Seq<DeviceView>, last_index: usize, mount_path: Seq<char>) -> Seq<PlannedView> {
    Seq::new(
        added.len(),
        |k: int|
            PlannedView {
                command: spec_add_command(added[k], (last_index + k + 1) as nat, mount_path),
                step: Step::AddDevice,
            },
    )
}

/// The commands that remove the `missing` members from the pool.
pub open spec fn remove_steps(missing: Seq<usize>, mount_path: Seq<char>) -> Seq<PlannedView> {
    Seq::new(
        missing.len(),
        |k: int| PlannedView { command: spec_remove_command(missing[k], mount_path), step: Step::RemoveDevice },
    )
}

/// Bringing a mounted pool up to date: add each unused device that is not
/// a member yet, with a label numbered after the greatest member number;
/// remove each member whose device is gone; and, where a device was added,
/// rereplicate the data.
pub open spec fn spec_pool_update(scan: ScanView, unused: Seq<DeviceView>, mount_path: Seq<char>) -> Seq<PlannedView> {
    let added = added_devices(unused, scan.in_use);
    add_steps(added, scan.last_index, mount_path) + remove_steps(scan.missing, mount_path) + if added.len() > 0 {
        seq![PlannedView { command: spec_rereplicate_command(mount_path), step: Step::Rereplicate }]
    } else {
        seq![]
    }
}

/// Adding devices to a prefix of a list adds no more than to the list.
pub proof fn lemma_added_devices_prefix(unused: Seq<DeviceView>, in_use: Seq<Seq<char>>, i: int)
    requires
        0 <= i <= unused.len(),
    ensures
        added_devices(unused.take(i), in_use).len() <= added_devices(unused, in_use).len(),
    decreases unused.len(),
{
    if i < unused.len() {
        lemma_added_devices_prefix(unused.drop_last(), in_use, i);
        assert(unused.drop_last().take(i) =~= unused.take(i));
    } else {
        assert(unused.take(i) =~= unused);
    }
}

/// The commands that bring the mounted pool at `mount_path` up to date with
/// the `unused` devices. Every device must have a file name (the names are
/// matched against the members' devices), and the new member numbers must
/// fit in a `usize`.
pub fn plan_pool_update(scan: &PoolScan, unused: &Vec<LsblkDevice>, mount_path: &str) -> (r: Vec<PlannedCommand>)
    requires
        all_named(devices_view(unused@)),
        scan.last_index + added_devices(devices_view(unused@), scan@.in_use).len() <= usize::MAX,
    ensures
        plan_view(r@) == spec_pool_update(scan@, devices_view(unused@), mount_path@),
{
    let ghost dv = devices_view(unused@);
    let ghost mp = mount_path@;
    let mut out: Vec<PlannedCommand> = Vec::new();
    let mut added: usize = 0;
    let mut i: usize = 0;
    while i < unused.len()
        invariant
            i <= unused.len(),
            dv == devices_view(unused@),
            mp == mount_path@,
            all_named(dv),
            scan.last_index + added_devices(dv, scan@.in_use).len() <= usize::MAX,
            added == added_devices(dv.take(i as int), scan@.in_use).len(),
            plan_view(out@) =~= add_steps(added_devices(dv.take(i as int), scan@.in_use), scan.last_index, mp),
        decreases unused.len() - i,
    {
        let dev = &unused[i];
        assert(dv[i as int] == dev@);
        assert(dv.take(i + 1).drop_last() =~= dv.take(i as int));
        assert(dv.take(i + 1).last() == dev@);
        assert(file_name_of(dv[i as int].path) is Some);
        let name = path_file_name(dev.path.as_str()).unwrap();
        if !scan.uses(&name) {
            proof {
                lemma_added_devices_prefix(dv, scan@.in_use, i + 1);
            }
            let n = scan.last_index + added + 1;
            let mut c = CommandLine::new("bcachefs");
            c.arg_str("device");
            c.arg_str("add");
            c.arg_str("--label");
            c.arg(label(dev.rota, n));
            c.arg_str(mount_path);
            c.arg(dev.path.clone());
            let ghost prev = plan_view(out@);
            let p = PlannedCommand { command: c, step: Step::AddDevice };
            assert(p@ == PlannedView {
                command: spec_add_command(dev@, (scan.last_index + added + 1) as nat, mp),
                step: Step::AddDevice,
            }) by {
                assert(p@.command.args =~= spec_add_command(dev@, (scan.last_index + added + 1) as nat, mp).args);
            }
            out.push(p);
            assert(plan_view(out@) =~= prev.push(p@));
            added = added + 1;
        }
        i = i + 1;
    }
    assert(dv.take(unused.len() as int) =~= dv);
    let ghost adds = plan_view(out@);
    let mut j: usize = 0;
    while j < scan.missing.len()
        invariant
            j <= scan.missing.len(),
            mp == mount_path@,
            plan_view(out@) =~= adds + remove_steps(scan@.missing.take(j as int), mp),
        decreases scan.missing.len() - j,
    {
        let index = scan.missing[j];
        let mut c = CommandLine::new("bcachefs");
        c.arg_str("device");
        c.arg_str("remove");
        c.arg(decimal_string(index));
        c.arg_str(mount_path);
        let ghost prev = plan_view(out@);
        let p = PlannedCommand { command: c, step: Step::RemoveDevice };
        assert(p@.command.args =~= spec_remove_command(index, mp).args);
        out.push(p);
        assert(plan_view(out@) =~= prev.push(p@));
        assert(remove_steps(scan@.missing.take(j + 1), mp) =~= remove_steps(scan@.missing.take(j as int), mp).push(p@));
        j = j + 1;
    }
    assert(scan@.missing.take(scan.missing.len() as int) =~= scan@.missing);
    if added > 0 {
        let mut c = CommandLine::new("bcachefs");
        c.arg_str("data");
        c.arg_str("rereplicate");
        c.arg_str(mount_path);
        let ghost prev = plan_view(out@);
        let p = PlannedCommand { command: c, step: Step::Rereplicate };
        assert(p@.command.args =~= spec_rereplicate_command(mp).args);
        out.push(p);
        assert(plan_view(out@) =~= prev.push(p@));
    }
    out
}

/// The unused devices named so far and how many of them would be added.
pub(crate) fn count_added(scan: &PoolScan, unused: &Vec<LsblkDevice>) -> (r: Option<usize>)
    ensures
        r is Some <==> all_named(devices_view(unused@)),
        r matches Some(n) ==> n == added_devices(devices_view(unused@), scan@.in_use).len(),
{
    let ghost dv = devices_view(unused@);
    let mut count: usize = 0;
    let mut i: usize = 0;
    while i < unused.len()
        invariant
            i <= unused.len(),
            dv == devices_view(unused@),
            all_named(dv.take(i as int)),
            count == added_devices(dv.take(i as int), scan@.in_use).len(),
            count <= i,
        decreases unused.len() - i,
    {
        assert(dv[i as int] == unused[i as int]@);
        assert(dv.take(i + 1).drop_last() =~= dv.take(i as int));
        let name = match path_file_name(unused[i].path.as_str()) {
            Some(n) => n,
            None => {
                assert(file_name_of(dv[i as int].path) is None);
                assert(!all_named(dv));
                return None;
            },
        };
        if !scan.uses(&name) {
            count = count + 1;
        }
        assert(all_named(dv.take(i + 1))) by {
            assert forall|k: int| 0 <= k < dv.take(i + 1).len() implies (#[trigger] file_name_of(
                dv.take(i + 1)[k].path,
            )) is Some by {
                if k < i {
                    assert(dv.take(i + 1)[k] == dv.take(i as int)[k]);
                }
            }
        }
        i = i + 1;
    }
    assert(dv.take(unused.len() as int) =~= dv);
    Some(count)
}

/// [`plan_pool_update`] where its conditions hold; `None` where a device
/// path has no file name or a new member number would not fit in a `usize`.
pub fn plan_pool_update_checked(scan: &PoolScan, unused: &Vec<LsblkDevice>, mount_path: &str) -> (r: Option<
    Vec<PlannedCommand>,
>)
    ensures
        r is Some <==> all_named(devices_view(unused@)) && scan.last_index + added_devices(
            devices_view(unused@),
            scan@.in_use,
        ).len() <= usize::MAX,
        r matches Some(p) ==> plan_view(p@) == spec_pool_update(scan@, devices_view(unused@), mount_path@),
{
    match count_added(scan, unused) {
        Some(n) => {
            if n <= usize::MAX - scan.last_index {
                Some(plan_pool_update(scan, unused, mount_path))
            } else {
                None
            }
        },
        None => None,
    }
}

/// The pool summary, as members are seen one by one: the greatest member
/// number is the largest number seen (0 before any is seen), the missing
/// members are those seen without a block device, in order, and a block
/// device is in use exactly when some member was seen on it.
pub proof fn lemma_scan_summary(members: Seq<(usize, Option<Seq<char>>)>)
    ensures
        scan_of(members).missing == missing_members(members),
        forall|k: int| 0 <= k < members.len() ==> #[trigger] members[k].0 <= scan_of(members).last_index,
        members.len() == 0 ==> scan_of(members).last_index == 0,
        members.len() > 0 ==> exists|k: int| 0 <= k < members.len() && #[trigger] members[k].0 == scan_of(members).last_index,
        forall|name: Seq<char>| #[trigger] scan_of(members).in_use.contains(name) <==> exists|k: int|
            0 <= k < members.len() && #[trigger] members[k].1 == Some(name),
    decreases members.len(),
{
    if members.len() > 0 {
        let prev = members.drop_last();
        lemma_scan_summary(prev);
        let last = members.last();
        let s = scan_of(members);
        let p = scan_of(prev);
        assert forall|k: int| 0 <= k < members.len() implies #[trigger] members[k].0 <= s.last_index by {
            if k < prev.len() {
                assert(members[k] == prev[k]);
            }
        }
        if last.0 > p.last_index || prev.len() == 0 {
            assert(members[members.len() - 1].0 == s.last_index);
        } else {
            let k = choose|k: int| 0 <= k < prev.len() && #[trigger] prev[k].0 == p.last_index;
            assert(members[k] == prev[k]);
        }
        assert forall|name: Seq<char>| #[trigger] s.in_use.contains(name) <==> exists|k: int|
            0 <= k < members.len() && #[trigger] members[k].1 == Some(name) by {
            if s.in_use.contains(name) {
                if p.in_use.contains(name) {
                    let k = choose|k: int| 0 <= k < prev.len() && #[trigger] prev[k].1 == Some(name);
                    assert(members[k] == prev[k]);
                } else {
                    let i = choose|i: int| 0 <= i < s.in_use.len() && s.in_use[i] == name;
                    assert(last.1 == Some(name)) by {
                        if i < p.in_use.len() {
                            assert(s.in_use[i] == p.in_use[i]);
                        }
                    }
                    assert(members[members.len() - 1].1 == Some(name));
                }
            }
            if exists|k: int| 0 <= k < members.len() && #[trigger] members[k].1 == Some(name) {
                let k = choose|k: int| 0 <= k < members.len() && #[trigger] members[k].1 == Some(name);
                if k < prev.len() {
                    assert(prev[k] == members[k]);
                    assert(p.in_use.contains(name));
                    let i = choose|i: int| 0 <= i < p.in_use.len() && p.in_use[i] == name;
                    assert(s.in_use[i] == name);
                } else {
                    assert(s.in_use[s.in_use.len() - 1] == name);
                }
            }
        }
    }
}

/// In one update of a pool whose members are `members`, the k-th added
/// device gets the member number after the greatest existing one plus k, so
/// each new number is above every existing member's number, and no two added
/// devices get the same label.
pub proof fn lemma_added_labels_fresh(
    members: Seq<(usize, Option<Seq<char>>)>,
    unused: Seq<DeviceView>,
    mount_path: Seq<char>,
    k1: int,
    k2: int,
)
    requires
        0 <= k1 < added_devices(unused, scan_of(members).in_use).len(),
        0 <= k2 < added_devices(unused, scan_of(members).in_use).len(),
    ensures
        ({
            let scan = scan_of(members);
            let added = added_devices(unused, scan.in_use);
            let plan = spec_pool_update(scan, unused, mount_path);
            &&& plan[k1].step == Step::AddDevice
            &&& plan[k1].command == spec_add_command(added[k1], (scan.last_index + k1 + 1) as nat, mount_path)
            &&& forall|j: int| 0 <= j < members.len() ==> #[trigger] members[j].0 < scan.last_index + k1 + 1
            &&& k1 != k2 ==> plan[k1].command.args[3] != plan[k2].command.args[3]
        }),
{
    let scan = scan_of(members);
    let added = added_devices(unused, scan.in_use);
    let plan = spec_pool_update(scan, unused, mount_path);
    lemma_scan_summary(members);
    assert(plan[k1] == add_steps(added, scan.last_index, mount_path)[k1]);
    assert(plan[k2] == add_steps(added, scan.last_index, mount_path)[k2]);
    if k1 != k2 && plan[k1].command.args[3] == plan[k2].command.args[3] {
        lemma_label_number_distinguishes(
            added[k1].rota,
            (scan.last_index + k1 + 1) as nat,
            added[k2].rota,
            (scan.last_index + k2 + 1) as nat,
        );
    }
}

/// Bringing a pool up to date only adds devices, removes them, and
/// rereplicates.
pub proof fn lemma_pool_update_steps(scan: ScanView, unused: Seq<DeviceView>, mount_path: Seq<char>)
    ensures
        forall|i: int|
            0 <= i < spec_pool_update(scan, unused, mount_path).len() ==> match (#[trigger] spec_pool_update(
                scan,
                unused,
                mount_path,
            )[i]).step {
                Step::AddDevice | Step::RemoveDevice | Step::Rereplicate => true,
                _ => false,
            },
{
    let added = added_devices(unused, scan.in_use);
    let a = add_steps(added, scan.last_index, mount_path);
    let r = remove_steps(scan.missing, mount_path);
    let plan = spec_pool_update(scan, unused, mount_path);
    assert forall|i: int| 0 <= i < plan.len() implies match (#[trigger] plan[i]).step {
        Step::AddDevice | Step::RemoveDevice | Step::Rereplicate => true,
        _ => false,
    } by {
        if i < a.len() {
            assert(plan[i] == a[i]);
        } else if i < a.len() + r.len() {
            assert(plan[i] == r[i - a.len()]);
        }
    }
}

/// An unused device is new to the pool exactly when the name of its path is
/// not the name of any member's block device.
pub open spec fn not_a_member(in_use: Seq<Seq<char>>) -> spec_fn(DeviceView) -> bool {
    |d: DeviceView| !in_use.contains(file_name_of(d.path).unwrap())
}

/// The devices an update adds are the unused devices, in order, whose
/// names are not among the members' block devices, wherever those stand.
pub proof fn lemma_added_devices_are_the_non_members(unused: Seq<DeviceView>, in_use: Seq<Seq<char>>)
    ensures
        added_devices(unused, in_use) == unused.filter(not_a_member(in_use)),
        forall|i: int|
            0 <= i < unused.len() ==> (added_devices(unused, in_use).contains(#[trigger] unused[i])
                <== !in_use.contains(file_name_of(unused[i].path).unwrap())),
        forall|i: int|
            0 <= i < added_devices(unused, in_use).len() ==> !in_use.contains(
                file_name_of((#[trigger] added_devices(unused, in_use)[i]).path).unwrap(),
            ) && unused.contains(added_devices(unused, in_use)[i]),
    decreases unused.len(),
{
    reveal(Seq::filter);
    if unused.len() > 0 {
        lemma_added_devices_are_the_non_members(unused.drop_last(), in_use);
    }
    let f = unused.filter(not_a_member(in_use));
    assert(added_devices(unused, in_use) =~= f);
    #[allow(deprecated)]
    unused.filter_lemma(not_a_member(in_use));
    assert forall|i: int| 0 <= i < unused.len() && !in_use.contains(file_name_of(unused[i].path).unwrap())
        implies f.contains(#[trigger] unused[i]) by {
        assert(not_a_member(in_use)(unused[i]));
    }
    assert forall|i: int| 0 <= i < f.len() implies !in_use.contains(file_name_of((#[trigger] f[i]).path).unwrap())
        && unused.contains(f[i]) by {
        assert(not_a_member(in_use)(f[i]));
        lemma_filter_members_from(unused, not_a_member(in_use), i);
    }
}

proof fn lemma_filter_members_from(s: Seq<DeviceView>, p: spec_fn(DeviceView) -> bool, i: int)
    requires
        0 <= i < s.filter(p).len(),
    ensures
        s.contains(s.filter(p)[i]),
    decreases s.len(),
{
    reveal(Seq::filter);
    if s.len() > 0 {
        let rest = s.drop_last().filter(p);
        if i < rest.len() {
            lemma_filter_members_from(s.drop_last(), p, i);
            let k = choose|k: int| 0 <= k < s.drop_last().len() && s.drop_last()[k] == rest[i];
            assert(s[k] == s.filter(p)[i]);
        } else {
            assert(s[s.len() - 1] == s.filter(p)[i]);
        }
    }
}

/// An update of a pool summarised by `scan` runs, in order: one
/// `bcachefs device add` for each unused device that is not a member
/// (labelled with its tier and the member numbers after the greatest one),
/// one `bcachefs device remove` for each missing member, and one
/// `bcachefs data rereplicate` where anything was added; nothing else.
pub proof fn lemma_pool_update_commands(scan: ScanView, unused: Seq<DeviceView>, mount_path: Seq<char>)
    ensures
        ({
            let new = unused.filter(not_a_member(scan.in_use));
            let plan = spec_pool_update(scan, unused, mount_path);
            &&& plan.len() == new.len() + scan.missing.len() + (if new.len() > 0 { 1int } else { 0int })
            &&& forall|k: int|
                0 <= k < new.len() ==> #[trigger] plan[k] == PlannedView {
                    command: command_view(
                        "bcachefs"@,
                        seq![
                            "device"@,
                            "add"@,
                            "--label"@,
                            tier(new[k].rota) + ".d"@ + decimal((scan.last_index + k + 1) as nat),
                            mount_path,
                            new[k].path,
                        ],
                    ),
                    step: Step::AddDevice,
                }
            &&& forall|j: int|
                0 <= j < scan.missing.len() ==> #[trigger] plan[new.len() + j] == PlannedView {
                    command: command_view(
                        "bcachefs"@,
                        seq!["device"@, "remove"@, decimal(scan.missing[j] as nat), mount_path],
                    ),
                    step: Step::RemoveDevice,
                }
            &&& new.len() > 0 ==> plan[plan.len() - 1] == PlannedView {
                command: command_view("bcachefs"@, seq!["data"@, "rereplicate"@, mount_path]),
                step: Step::Rereplicate,
            }
        }),
{
    lemma_added_devices_are_the_non_members(unused, scan.in_use);
    let new = unused.filter(not_a_member(scan.in_use));
    let plan = spec_pool_update(scan, unused, mount_path);
    let a = add_steps(new, scan.last_index, mount_path);
    let r = remove_steps(scan.missing, mount_path);
    assert forall|k: int| 0 <= k < new.len() implies #[trigger] plan[k] == a[k] by {}
    assert forall|j: int| 0 <= j < scan.missing.len() implies #[trigger] plan[new.len() + j] == r[j] by {}
}

} // verus!
