//! The bcachefs setup as a protocol: the library decides each next step from
//! what the last one brought, and its caller performs the steps (probing
//! paths, fetching keys, running commands, reading sysfs, finding unused
//! devices) and reports back.
//!
//! Where the pool exists it is mounted, its members are read from sysfs, and
//! it is brought up to date with the unused devices; where it does not, a new
//! pool is formatted over the unused devices and mounted. Whatever fails, the
//! mountpoint is lazily unmounted before the setup ends as failed.

use vstd::prelude::*;
use vstd::string::*;
use crate::command::{CommandLine, CommandView};
use crate::config::{EncryptionMode, EncryptionModeView, encryption_view, option_view, spec_encryption};
use crate::device::{LsblkDevice, DeviceView, devices_view};
use crate::bcachefs::{
    PlannedCommand, PlannedView, Step, plan_view, mount_command, unmount_command, format_command,
    uuid_device_path, sysfs_pool_dir, member_index, spec_mount_command, spec_unmount_command,
    spec_format_command, spec_uuid_device_path, spec_sysfs_pool_dir, spec_member_index,
};
use crate::pool::{
    PoolScan, ScanView, empty_scan, spec_record, spec_pool_update, added_devices, all_named,
    plan_pool_update, count_added, lemma_pool_update_steps,
};

verus! {

/// The key that the pool is encrypted with, and what the configuration says
/// of how to unlock it.
#[derive(Clone, Debug, PartialEq, Eq)]
pub enum KeyRequest<K> {
    /// The key shared by all images.
    Shared { key_mode: K },
    /// The image's private key, stored in the file `key_path`.
    Private { key_path: String, key_mode: K },
}

/// The mathematical content of a [`KeyRequest`].
pub enum KeyRequestView<K> {
    Shared { key_mode: K },
    Private { key_path: Seq<char>, key_mode: K },
}

impl<K> View for KeyRequest<K> {
    type V = KeyRequestView<K>;

    open spec fn view(&self) -> KeyRequestView<K> {
        match self {
            KeyRequest::Shared { key_mode } => KeyRequestView::Shared { key_mode: *key_mode },
            KeyRequest::Private { key_path, key_mode } => KeyRequestView::Private {
                key_path: key_path@,
                key_mode: *key_mode,
            },
        }
    }
}

/// The view of an optional key request.
pub open spec fn request_view<K>(r: Option<KeyRequest<K>>) -> Option<KeyRequestView<K>> {
    match r {
        Some(q) => Some(q@),
        None => None,
    }
}

/// The key that an encryption mode needs, if any: the shared key for a
/// direct key, the private key at its path for an indirect one, each with
/// its key mode.
pub open spec fn spec_key_request<K>(e: EncryptionModeView<K>) -> Option<KeyRequestView<K>> {
    match e {
        EncryptionModeView::Unencrypted => None,
        EncryptionModeView::DirectKey { key_mode } => Some(KeyRequestView::Shared { key_mode }),
        EncryptionModeView::IndirectKey { key_path, key_mode } => Some(KeyRequestView::Private { key_path, key_mode }),
    }
}

/// The key that an encryption mode needs, if any.
pub fn key_request<K>(e: EncryptionMode<K>) -> (r: Option<KeyRequest<K>>)
    ensures
        request_view(r) == spec_key_request(e@),
{
    match e {
        EncryptionMode::Unencrypted => None,
        EncryptionMode::DirectKey { key_mode } => Some(KeyRequest::Shared { key_mode }),
        EncryptionMode::IndirectKey { key_path, key_mode } => Some(KeyRequest::Private { key_path, key_mode }),
    }
}

/// How a setup ended.
#[derive(Clone, Copy, Debug, PartialEq, Eq, Structural)]
pub enum Outcome {
    /// The pool is mounted and up to date.
    Succeeded,
    /// A step reported as failed; its error is the caller's.
    Failed,
    /// There was no pool, and fewer than two unused devices to make one.
    TooFewDevices,
}

/// Where a setup stands.
#[derive(Clone, Copy, Debug, PartialEq, Eq, Structural)]
pub enum Phase {
    /// Waiting to learn whether the pool's device node exists.
    Probing,
    /// The pool exists; waiting for its key.
    KeyForMount,
    /// Waiting for the pool to be mounted.
    Mounting,
    /// Waiting for the pool's sysfs entries.
    Listing,
    /// Waiting for the block device of the member at `next_member`.
    Inspecting,
    /// Waiting for the unused devices, to update the pool.
    FindingUnusedForUpdate,
    /// Waiting for the planned command before `next_command` to finish.
    Updating,
    /// There is no pool; waiting for the key of the new one.
    KeyForFormat,
    /// Waiting for the unused devices, to make a new pool.
    FindingUnusedForFormat,
    /// Waiting for the new pool to be formatted.
    Formatting,
    /// Waiting for the new pool to be mounted.
    MountingNew,
    /// Something failed; waiting for the cleanup unmount.
    CleaningUp,
    /// The setup has ended.
    Finished,
}

/// What the caller reports of the last step it performed.
pub enum Event {
    /// Whether the pool's device node exists.
    PoolExists(bool),
    /// The key that was asked for.
    KeyFetched(String),
    /// The command ran and exited with status 0.
    CommandSucceeded,
    /// The names of the entries of the pool's sysfs directory, `None` for an
    /// entry that could not be read or whose name is not UTF-8.
    PoolListed(Vec<Option<String>>),
    /// The name of the block device under the member's entry, `None` where
    /// the entry has no block device.
    MemberInspected(Option<String>),
    /// The unused block devices.
    UnusedFound(Vec<LsblkDevice>),
    /// The step failed.
    Failed,
}

/// The mathematical content of an [`Event`].
pub enum EventView {
    PoolExists(bool),
    KeyFetched(Seq<char>),
    CommandSucceeded,
    PoolListed(Seq<Option<Seq<char>>>),
    MemberInspected(Option<Seq<char>>),
    UnusedFound(Seq<DeviceView>),
    Failed,
}

impl View for Event {
    type V = EventView;

    open spec fn view(&self) -> EventView {
        match self {
            Event::PoolExists(b) => EventView::PoolExists(*b),
            Event::KeyFetched(k) => EventView::KeyFetched(k@),
            Event::CommandSucceeded => EventView::CommandSucceeded,
            Event::PoolListed(e) => EventView::PoolListed(e@.map_values(|n: Option<String>| option_view(n))),
            Event::MemberInspected(b) => EventView::MemberInspected(option_view(*b)),
            Event::UnusedFound(d) => EventView::UnusedFound(devices_view(d@)),
            Event::Failed => EventView::Failed,
        }
    }
}

/// The next step for the caller to perform.
pub enum Action<K> {
    /// Report whether the path exists.
    CheckPoolExists { path: String },
    /// Fetch the key, and report it.
    FetchKey { request: KeyRequest<K> },
    /// Run the command, writing `stdin` to it where given, and report
    /// whether it succeeded.
    Run { command: CommandLine, stdin: Option<String>, step: Step },
    /// List the directory, and report the names of its entries.
    ListPool { dir: String },
    /// Report the name of the block device that the `block` link in the
    /// pool's entry `entry` points to, if there is such a link.
    InspectMember { entry: String },
    /// Find the unused block devices, and report them.
    FindUnused,
    /// The setup has ended.
    Finish { outcome: Outcome },
}

/// The mathematical content of an [`Action`].
pub enum ActionView<K> {
    CheckPoolExists { path: Seq<char> },
    FetchKey { request: KeyRequestView<K> },
    Run { command: CommandView, stdin: Option<Seq<char>>, step: Step },
    ListPool { dir: Seq<char> },
    InspectMember { entry: Seq<char> },
    FindUnused,
    Finish { outcome: Outcome },
}

impl<K> View for Action<K> {
    type V = ActionView<K>;

    open spec fn view(&self) -> ActionView<K> {
        match self {
            Action::CheckPoolExists { path } => ActionView::CheckPoolExists { path: path@ },
            Action::FetchKey { request } => ActionView::FetchKey { request: request@ },
            Action::Run { command, stdin, step } => ActionView::Run {
                command: command@,
                stdin: option_view(*stdin),
                step: *step,
            },
            Action::ListPool { dir } => ActionView::ListPool { dir: dir@ },
            Action::InspectMember { entry } => ActionView::InspectMember { entry: entry@ },
            Action::FindUnused => ActionView::FindUnused,
            Action::Finish { outcome } => ActionView::Finish { outcome: *outcome },
        }
    }
}

/// The pool members among sysfs entries: the entries named `dev-<n>`, each
/// with its number, in order.
pub open spec fn spec_members(entries: Seq<Option<Seq<char>>>) -> Seq<(usize, Seq<char>)>
    decreases entries.len(),
{
    if entries.len() == 0 {
        seq![]
    } else {
        let rest = spec_members(entries.drop_last());
        match entries.last() {
            Some(name) => match spec_member_index(name) {
                Some(i) => rest.push((i, name)),
                None => rest,
            },
            None => rest,
        }
    }
}

/// The members of a pool's sysfs entries, each with its number.
pub fn pool_members(entries: &Vec<Option<String>>) -> (r: Vec<(usize, String)>)
    ensures
        members_view(r@) == spec_members(entries@.map_values(|n: Option<String>| option_view(n))),
{
    let ghost ev = entries@.map_values(|n: Option<String>| option_view(n));
    let mut out: Vec<(usize, String)> = Vec::new();
    let mut i: usize = 0;
    while i < entries.len()
        invariant
            i <= entries.len(),
            ev == entries@.map_values(|n: Option<String>| option_view(n)),
            members_view(out@) =~= spec_members(ev.take(i as int)),
        decreases entries.len() - i,
    {
        assert(ev.take(i + 1).drop_last() =~= ev.take(i as int));
        assert(ev.take(i + 1).last() == option_view(entries@[i as int]));
        match &entries[i] {
            Some(name) => {
                match member_index(name.as_str()) {
                    Some(index) => {
                        let ghost prev = members_view(out@);
                        out.push((index, name.clone()));
                        assert(members_view(out@) =~= prev.push((index, name@)));
                    },
                    None => {},
                }
            },
            None => {},
        }
        i = i + 1;
    }
    assert(ev.take(entries.len() as int) =~= ev);
    out
}

/// The numbers and entry names of a list of members.
pub open spec fn members_view(m: Seq<(usize, String)>) -> Seq<(usize, Seq<char>)> {
    m.map_values(|p: (usize, String)| (p.0, p.1@))
}

/// A bcachefs setup in progress.
pub struct PoolSetup<K> {
    pub uuid: String,
    pub mount_path: String,
    pub encrypted: bool,
    pub key_request: Option<KeyRequest<K>>,
    pub phase: Phase,
    pub key: Option<String>,
    pub scan: PoolScan,
    pub members: Vec<(usize, String)>,
    pub next_member: usize,
    pub plan: Vec<PlannedCommand>,
    pub next_command: usize,
    pub failure: Outcome,
}

/// The mathematical content of a [`PoolSetup`].
#[verifier::ext_equal]
pub struct SetupView<K> {
    pub uuid: Seq<char>,
    pub mount_path: Seq<char>,
    pub encrypted: bool,
    pub key_request: Option<KeyRequestView<K>>,
    pub phase: Phase,
    pub key: Option<Seq<char>>,
    pub scan: ScanView,
    pub members: Seq<(usize, Seq<char>)>,
    pub next_member: nat,
    pub plan: Seq<PlannedView>,
    pub next_command: nat,
    pub failure: Outcome,
}

impl<K> View for PoolSetup<K> {
    type V = SetupView<K>;

    open spec fn view(&self) -> SetupView<K> {
        SetupView {
            uuid: self.uuid@,
            mount_path: self.mount_path@,
            encrypted: self.encrypted,
            key_request: request_view(self.key_request),
            phase: self.phase,
            key: option_view(self.key),
            scan: self.scan@,
            members: members_view(self.members@),
            next_member: self.next_member as nat,
            plan: plan_view(self.plan@),
            next_command: self.next_command as nat,
            failure: self.failure,
        }
    }
}

/// The phases in which the key question has been settled.
pub open spec fn key_settled(p: Phase) -> bool {
    match p {
        Phase::Mounting | Phase::Listing | Phase::Inspecting | Phase::FindingUnusedForUpdate
        | Phase::Updating | Phase::FindingUnusedForFormat | Phase::Formatting | Phase::MountingNew => true,
        _ => false,
    }
}

/// What holds of every state that a setup reaches: the positions stay within
/// their lists, a key is held exactly where the pool is encrypted (once it
/// has been fetched), and a cleanup is always for a failure.
pub open spec fn setup_wf<K>(s: SetupView<K>) -> bool {
    &&& s.phase == Phase::Inspecting ==> s.next_member < s.members.len()
    &&& s.phase == Phase::Updating ==> 0 < s.next_command <= s.plan.len()
    &&& key_settled(s.phase) ==> (s.key is Some <==> s.encrypted)
    &&& (s.phase == Phase::Probing || s.phase == Phase::KeyForMount || s.phase == Phase::KeyForFormat) ==> s.key is None
    &&& s.phase == Phase::Probing ==> (s.key_request is Some <==> s.encrypted)
    &&& (s.phase == Phase::KeyForMount || s.phase == Phase::KeyForFormat) ==> s.encrypted
    &&& s.phase == Phase::CleaningUp ==> s.failure != Outcome::Succeeded
    &&& s.phase == Phase::Updating ==> update_steps_only(s.plan)
}

/// Every planned command adds a device, removes one, or rereplicates.
pub open spec fn update_steps_only(plan: Seq<PlannedView>) -> bool {
    forall|i: int|
        0 <= i < plan.len() ==> match (#[trigger] plan[i]).step {
            Step::AddDevice | Step::RemoveDevice | Step::Rereplicate => true,
            _ => false,
        }
}

/// The phases that a failure report is taken in: all but the end.
pub open spec fn active(p: Phase) -> bool {
    p != Phase::Finished
}

/// Whether a setup in state `s` takes event `e`: each phase waits for one
/// kind of report, and any phase but the end also takes a failure. Unused
/// devices for an update must all have file names, and the new member
/// numbers must fit in a `usize`.
pub open spec fn spec_accepts<K>(s: SetupView<K>, e: EventView) -> bool {
    match e {
        EventView::Failed => active(s.phase),
        EventView::PoolExists(_) => s.phase == Phase::Probing,
        EventView::KeyFetched(_) => s.phase == Phase::KeyForMount || s.phase == Phase::KeyForFormat,
        EventView::CommandSucceeded => s.phase == Phase::Mounting || s.phase == Phase::Updating || s.phase
            == Phase::Formatting || s.phase == Phase::MountingNew || s.phase == Phase::CleaningUp,
        EventView::PoolListed(_) => s.phase == Phase::Listing,
        EventView::MemberInspected(_) => s.phase == Phase::Inspecting,
        EventView::UnusedFound(devs) => s.phase == Phase::FindingUnusedForFormat || (s.phase
            == Phase::FindingUnusedForUpdate && all_named(devs) && s.scan.last_index + added_devices(
            devs,
            s.scan.in_use,
        ).len() <= usize::MAX),
    }
}

/// Running a planned command.
pub open spec fn run_planned<K>(p: PlannedView) -> ActionView<K> {
    ActionView::Run { command: p.command, stdin: None, step: p.step }
}

/// The state after a failure, and the cleanup unmount that it calls for.
pub open spec fn spec_fail<K>(s: SetupView<K>, why: Outcome) -> (SetupView<K>, ActionView<K>) {
    (
        SetupView { phase: Phase::CleaningUp, failure: why, ..s },
        ActionView::Run { command: spec_unmount_command(s.mount_path), stdin: None, step: Step::Unmount },
    )
}

/// The end of a setup.
pub open spec fn spec_finish<K>(s: SetupView<K>, outcome: Outcome) -> (SetupView<K>, ActionView<K>) {
    (SetupView { phase: Phase::Finished, ..s }, ActionView::Finish { outcome })
}

/// The first step of a setup: probe for the pool's device node.
pub open spec fn spec_start<K>(
    uuid: Seq<char>,
    mount_path: Seq<char>,
    encryption: Option<EncryptionModeView<K>>,
) -> (SetupView<K>, ActionView<K>) {
    let request = spec_key_request(spec_encryption(encryption));
    (
        SetupView {
            uuid,
            mount_path,
            encrypted: request is Some,
            key_request: request,
            phase: Phase::Probing,
            key: None,
            scan: empty_scan(),
            members: seq![],
            next_member: 0,
            plan: seq![],
            next_command: 0,
            failure: Outcome::Failed,
        },
        ActionView::CheckPoolExists { path: spec_uuid_device_path(uuid) },
    )
}

/// The next state and step, from state `s` and report `e`.
pub open spec fn spec_step<K>(s: SetupView<K>, e: EventView) -> (SetupView<K>, ActionView<K>) {
    match e {
        EventView::Failed => if s.phase == Phase::CleaningUp {
            spec_finish(s, s.failure)
        } else {
            spec_fail(s, Outcome::Failed)
        },
        EventView::PoolExists(exists) => match s.key_request {
            Some(request) => (
                SetupView {
                    phase: if exists {
                        Phase::KeyForMount
                    } else {
                        Phase::KeyForFormat
                    },
                    key_request: None,
                    ..s
                },
                ActionView::FetchKey { request },
            ),
            None => if exists {
                (
                    SetupView { phase: Phase::Mounting, ..s },
                    ActionView::Run {
                        command: spec_mount_command(s.uuid, s.mount_path, false),
                        stdin: None,
                        step: Step::Mount,
                    },
                )
            } else {
                (SetupView { phase: Phase::FindingUnusedForFormat, ..s }, ActionView::FindUnused)
            },
        },
        EventView::KeyFetched(k) => if s.phase == Phase::KeyForMount {
            (
                SetupView { phase: Phase::Mounting, key: Some(k), ..s },
                ActionView::Run {
                    command: spec_mount_command(s.uuid, s.mount_path, true),
                    stdin: Some(k),
                    step: Step::Mount,
                },
            )
        } else {
            (SetupView { phase: Phase::FindingUnusedForFormat, key: Some(k), ..s }, ActionView::FindUnused)
        },
        EventView::CommandSucceeded => if s.phase == Phase::Mounting {
            (SetupView { phase: Phase::Listing, ..s }, ActionView::ListPool { dir: spec_sysfs_pool_dir(s.uuid) })
        } else if s.phase == Phase::Updating {
            if s.next_command < s.plan.len() {
                (
                    SetupView { next_command: s.next_command + 1, ..s },
                    run_planned(s.plan[s.next_command as int]),
                )
            } else {
                spec_finish(s, Outcome::Succeeded)
            }
        } else if s.phase == Phase::Formatting {
            (
                SetupView { phase: Phase::MountingNew, ..s },
                ActionView::Run {
                    command: spec_mount_command(s.uuid, s.mount_path, s.key is Some),
                    stdin: s.key,
                    step: Step::Mount,
                },
            )
        } else if s.phase == Phase::MountingNew {
            spec_finish(s, Outcome::Succeeded)
        } else {
            spec_finish(s, s.failure)
        },
        EventView::PoolListed(entries) => {
            let members = spec_members(entries);
            if members.len() > 0 {
                (
                    SetupView { phase: Phase::Inspecting, members, next_member: 0, ..s },
                    ActionView::InspectMember { entry: members[0].1 },
                )
            } else {
                (SetupView { phase: Phase::FindingUnusedForUpdate, members, ..s }, ActionView::FindUnused)
            }
        },
        EventView::MemberInspected(block) => {
            let scan = spec_record(s.scan, s.members[s.next_member as int].0, block);
            if s.next_member + 1 < s.members.len() {
                (
                    SetupView { scan, next_member: s.next_member + 1, ..s },
                    ActionView::InspectMember { entry: s.members[(s.next_member + 1) as int].1 },
                )
            } else {
                (SetupView { phase: Phase::FindingUnusedForUpdate, scan, ..s }, ActionView::FindUnused)
            }
        },
        EventView::UnusedFound(devs) => if s.phase == Phase::FindingUnusedForUpdate {
            let plan = spec_pool_update(s.scan, devs, s.mount_path);
            if plan.len() > 0 {
                (SetupView { phase: Phase::Updating, plan, next_command: 1, ..s }, run_planned(plan[0]))
            } else {
                spec_finish(SetupView { plan, ..s }, Outcome::Succeeded)
            }
        } else if devs.len() < 2 {
            spec_fail(s, Outcome::TooFewDevices)
        } else {
            (
                SetupView { phase: Phase::Formatting, ..s },
                ActionView::Run {
                    command: spec_format_command(s.uuid, s.encrypted, devs),
                    stdin: s.key,
                    step: Step::Format,
                },
            )
        },
    }
}

impl<K> PoolSetup<K> {
    /// Starts the setup of the pool with UUID `uuid`, to be mounted at
    /// `mount_path` and encrypted as configured (not at all by default), with
    /// the first step to perform.
    pub fn start(uuid: String, mount_path: String, encryption: Option<EncryptionMode<K>>) -> (r: (
        PoolSetup<K>,
        Action<K>,
    ))
        ensures
            setup_wf(r.0@),
            (r.0@, r.1@) == spec_start(uuid@, mount_path@, encryption_view(encryption)),
    {
        let ghost ev = encryption_view(encryption);
        let path = uuid_device_path(uuid.as_str());
        let mode = match encryption {
            Some(m) => m,
            None => EncryptionMode::Unencrypted,
        };
        assert(mode@ == spec_encryption(ev));
        let request = key_request(mode);
        let encrypted = request.is_some();
        let s = PoolSetup {
            uuid,
            mount_path,
            encrypted,
            key_request: request,
            phase: Phase::Probing,
            key: None,
            scan: PoolScan::new(),
            members: Vec::new(),
            next_member: 0,
            plan: Vec::new(),
            next_command: 0,
            failure: Outcome::Failed,
        };
        assert(members_view(s.members@) =~= seq![]);
        assert(plan_view(s.plan@) =~= seq![]);
        assert(s@ =~= spec_start(uuid@, mount_path@, ev).0);
        (s, Action::CheckPoolExists { path })
    }

    fn fail(&mut self, why: Outcome) -> (a: Action<K>)
        ensures
            (final(self)@, a@) == spec_fail(old(self)@, why),
    {
        self.phase = Phase::CleaningUp;
        self.failure = why;
        let command = unmount_command(self.mount_path.as_str());
        assert(self@ =~= spec_fail(old(self)@, why).0);
        Action::Run { command, stdin: None, step: Step::Unmount }
    }

    fn finish(&mut self, outcome: Outcome) -> (a: Action<K>)
        ensures
            (final(self)@, a@) == spec_finish(old(self)@, outcome),
    {
        self.phase = Phase::Finished;
        assert(self@ =~= spec_finish(old(self)@, outcome).0);
        Action::Finish { outcome }
    }

    fn mount_action(&self) -> (a: Action<K>)
        ensures
            a@ == (ActionView::<K>::Run {
                command: spec_mount_command(self@.uuid, self@.mount_path, self@.key is Some),
                stdin: self@.key,
                step: Step::Mount,
            }),
    {
        let command = mount_command(self.uuid.as_str(), self.mount_path.as_str(), self.key.is_some());
        let stdin = match &self.key {
            Some(k) => Some(k.clone()),
            None => None,
        };
        Action::Run { command, stdin, step: Step::Mount }
    }

    fn run_next_planned(&mut self) -> (a: Action<K>)
        requires
            old(self).next_command < old(self).plan.len(),
        ensures
            final(self)@ == (SetupView { next_command: old(self)@.next_command + 1, ..old(self)@ }),
            a@ == run_planned::<K>(old(self)@.plan[old(self)@.next_command as int]),
    {
        let p = &self.plan[self.next_command];
        assert(plan_view(self.plan@)[self.next_command as int] == p@);
        let command = p.command.duplicate();
        let step = p.step;
        self.next_command = self.next_command + 1;
        assert(self@ =~= (SetupView { next_command: old(self)@.next_command + 1, ..old(self)@ }));
        Action::Run { command, stdin: None, step }
    }

    /// Whether the setup takes `e` now.
    pub fn accepts(&self, e: &Event) -> (r: bool)
        ensures
            r == spec_accepts(self@, e@),
    {
        match e {
            Event::Failed => self.phase != Phase::Finished,
            Event::PoolExists(_) => self.phase == Phase::Probing,
            Event::KeyFetched(_) => self.phase == Phase::KeyForMount || self.phase == Phase::KeyForFormat,
            Event::CommandSucceeded => self.phase == Phase::Mounting || self.phase == Phase::Updating
                || self.phase == Phase::Formatting || self.phase == Phase::MountingNew || self.phase
                == Phase::CleaningUp,
            Event::PoolListed(_) => self.phase == Phase::Listing,
            Event::MemberInspected(_) => self.phase == Phase::Inspecting,
            Event::UnusedFound(devs) => {
                if self.phase == Phase::FindingUnusedForFormat {
                    true
                } else if self.phase == Phase::FindingUnusedForUpdate {
                    match count_added(&self.scan, devs) {
                        Some(n) => n <= usize::MAX - self.scan.last_index,
                        None => false,
                    }
                } else {
                    false
                }
            },
        }
    }

    /// Takes the report `e` of the last step, and gives the next step.
    pub fn step(&mut self, e: Event) -> (a: Action<K>)
        requires
            setup_wf(old(self)@),
            spec_accepts(old(self)@, e@),
        ensures
            setup_wf(final(self)@),
            (final(self)@, a@) == spec_step(old(self)@, e@),
    {
        let ghost e_view = e@;
        match e {
            Event::Failed => {
                if self.phase == Phase::CleaningUp {
                    let f = self.failure;
                    self.finish(f)
                } else {
                    self.fail(Outcome::Failed)
                }
            },
            Event::PoolExists(exists) => {
                let mut request: Option<KeyRequest<K>> = None;
                std::mem::swap(&mut request, &mut self.key_request);
                match request {
                    Some(request) => {
                        self.phase = if exists {
                            Phase::KeyForMount
                        } else {
                            Phase::KeyForFormat
                        };
                        assert(self@ =~= spec_step(old(self)@, e_view).0);
                        Action::FetchKey { request }
                    },
                    None => {
                        if exists {
                            self.phase = Phase::Mounting;
                            let a = self.mount_action();
                            assert(self@ =~= spec_step(old(self)@, e_view).0);
                            a
                        } else {
                            self.phase = Phase::FindingUnusedForFormat;
                            assert(self@ =~= spec_step(old(self)@, e_view).0);
                            Action::FindUnused
                        }
                    },
                }
            },
            Event::KeyFetched(k) => {
                if self.phase == Phase::KeyForMount {
                    self.key = Some(k);
                    self.phase = Phase::Mounting;
                    let a = self.mount_action();
                    assert(self@ =~= spec_step(old(self)@, e_view).0);
                    a
                } else {
                    self.key = Some(k);
                    self.phase = Phase::FindingUnusedForFormat;
                    assert(self@ =~= spec_step(old(self)@, e_view).0);
                    Action::FindUnused
                }
            },
            Event::CommandSucceeded => {
                if self.phase == Phase::Mounting {
                    self.phase = Phase::Listing;
                    let dir = sysfs_pool_dir(self.uuid.as_str());
                    assert(self@ =~= spec_step(old(self)@, e_view).0);
                    Action::ListPool { dir }
                } else if self.phase == Phase::Updating {
                    if self.next_command < self.plan.len() {
                        self.run_next_planned()
                    } else {
                        self.finish(Outcome::Succeeded)
                    }
                } else if self.phase == Phase::Formatting {
                    self.phase = Phase::MountingNew;
                    let a = self.mount_action();
                    assert(self@ =~= spec_step(old(self)@, e_view).0);
                    a
                } else if self.phase == Phase::MountingNew {
                    self.finish(Outcome::Succeeded)
                } else {
                    let f = self.failure;
                    self.finish(f)
                }
            },
            Event::PoolListed(entries) => {
                let members = pool_members(&entries);
                if members.len() > 0 {
                    let entry = members[0].1.clone();
                    assert(members_view(members@)[0] == (members@[0].0, members@[0].1@));
                    self.members = members;
                    self.next_member = 0;
                    self.phase = Phase::Inspecting;
                    assert(self@ =~= spec_step(old(self)@, e_view).0);
                    Action::InspectMember { entry }
                } else {
                    self.members = members;
                    self.phase = Phase::FindingUnusedForUpdate;
                    assert(self@ =~= spec_step(old(self)@, e_view).0);
                    Action::FindUnused
                }
            },
            Event::MemberInspected(block) => {
                assert(self.next_member < self.members.len());
                let index = self.members[self.next_member].0;
                assert(members_view(self.members@)[self.next_member as int].0 == index);
                self.scan.record(index, block);
                if self.members.len() - self.next_member > 1 {
                    self.next_member = self.next_member + 1;
                    let entry = self.members[self.next_member].1.clone();
                    assert(members_view(self.members@)[self.next_member as int].1 == entry@);
                    assert(self@ =~= spec_step(old(self)@, e_view).0);
                    Action::InspectMember { entry }
                } else {
                    self.phase = Phase::FindingUnusedForUpdate;
                    assert(self@ =~= spec_step(old(self)@, e_view).0);
                    Action::FindUnused
                }
            },
            Event::UnusedFound(devs) => {
                if self.phase == Phase::FindingUnusedForUpdate {
                    let plan = plan_pool_update(&self.scan, &devs, self.mount_path.as_str());
                    proof {
                        lemma_pool_update_steps(self.scan@, devices_view(devs@), self.mount_path@);
                    }
                    self.plan = plan;
                    if self.plan.len() > 0 {
                        self.phase = Phase::Updating;
                        self.next_command = 0;
                        let a = self.run_next_planned();
                        assert(self@ =~= spec_step(old(self)@, e_view).0);
                        a
                    } else {
                        self.finish(Outcome::Succeeded)
                    }
                } else {
                    match format_command(self.uuid.as_str(), self.encrypted, &devs) {
                        Err(_) => self.fail(Outcome::TooFewDevices),
                        Ok(command) => {
                            self.phase = Phase::Formatting;
                            let stdin = match &self.key {
                                Some(k) => Some(k.clone()),
                                None => None,
                            };
                            assert(self@ =~= spec_step(old(self)@, e_view).0);
                            Action::Run { command, stdin, step: Step::Format }
                        },
                    }
                }
            },
        }
    }

    /// [`PoolSetup::step`] where the setup takes `e`; where it does not,
    /// `None`, and the setup is left as it was.
    pub fn step_checked(&mut self, e: Event) -> (r: Option<Action<K>>)
        requires
            setup_wf(old(self)@),
        ensures
            setup_wf(final(self)@),
            r is Some <==> spec_accepts(old(self)@, e@),
            r is None ==> final(self)@ == old(self)@,
            r matches Some(a) ==> (final(self)@, a@) == spec_step(old(self)@, e@),
    {
        if self.accepts(&e) {
            Some(self.step(e))
        } else {
            None
        }
    }
}

/// Whatever step fails, the setup then lazily unmounts the mountpoint, and
/// ends as failed however the unmount goes.
pub proof fn lemma_failure_cleans_up<K>(s: SetupView<K>)
    requires
        setup_wf(s),
        active(s.phase),
        s.phase != Phase::CleaningUp,
    ensures
        ({
            let (t, a) = spec_step(s, EventView::Failed);
            &&& a == (ActionView::<K>::Run { command: spec_unmount_command(s.mount_path), stdin: None, step: Step::Unmount })
            &&& t.phase == Phase::CleaningUp
            &&& setup_wf(t)
            &&& spec_step(t, EventView::CommandSucceeded).1 == (ActionView::<K>::Finish { outcome: Outcome::Failed })
            &&& spec_step(t, EventView::Failed).1 == (ActionView::<K>::Finish { outcome: Outcome::Failed })
        }),
{
}

/// Where there is no pool and fewer than two unused devices, nothing is
/// formatted: the mountpoint is lazily unmounted, and the setup ends for
/// lack of devices however the unmount goes.
pub proof fn lemma_too_few_devices<K>(s: SetupView<K>, devs: Seq<DeviceView>)
    requires
        setup_wf(s),
        s.phase == Phase::FindingUnusedForFormat,
        devs.len() < 2,
    ensures
        ({
            let (t, a) = spec_step(s, EventView::UnusedFound(devs));
            &&& a == (ActionView::<K>::Run { command: spec_unmount_command(s.mount_path), stdin: None, step: Step::Unmount })
            &&& spec_step(t, EventView::CommandSucceeded).1 == (ActionView::<K>::Finish { outcome: Outcome::TooFewDevices })
            &&& spec_step(t, EventView::Failed).1 == (ActionView::<K>::Finish { outcome: Outcome::TooFewDevices })
        }),
{
}

/// The pool is mounted and formatted with a key exactly where it is
/// encrypted, the key written to the command is the one fetched, and the key
/// asked for is the one the configuration names (with its key mode and, for
/// a private key, its path).
pub proof fn lemma_key_follows_encryption<K>(s: SetupView<K>, e: EventView)
    requires
        setup_wf(s),
        spec_accepts(s, e),
    ensures
        ({
            let (t, a) = spec_step(s, e);
            &&& a matches ActionView::Run { command, stdin, step } ==> {
                &&& step == Step::Mount ==> command == spec_mount_command(s.uuid, s.mount_path, stdin is Some)
                &&& (step == Step::Mount || step == Step::Format) ==> (stdin is Some
                    <==> s.encrypted)
                &&& (step == Step::Mount || step == Step::Format) ==> stdin == t.key
            }
            &&& a matches ActionView::FetchKey { request } ==> s.key_request == Some(request)
        }),
{
}

/// The phases that follow finding the pool.
pub open spec fn existing_pool_phase(p: Phase) -> bool {
    match p {
        Phase::KeyForMount | Phase::Mounting | Phase::Listing | Phase::Inspecting
        | Phase::FindingUnusedForUpdate | Phase::Updating => true,
        _ => false,
    }
}

/// A pool that was found is never formatted: once the setup learns that the
/// pool exists it stays among the phases that mount and update it (or cleans
/// up, or ends), and none of its steps is a format.
pub proof fn lemma_existing_pool_never_formatted<K>(s: SetupView<K>, e: EventView)
    requires
        setup_wf(s),
        spec_accepts(s, e),
        existing_pool_phase(s.phase) || (s.phase == Phase::Probing && e == EventView::PoolExists(true)),
    ensures
        ({
            let (t, a) = spec_step(s, e);
            &&& existing_pool_phase(t.phase) || t.phase == Phase::CleaningUp || t.phase == Phase::Finished
            &&& !(a matches ActionView::Run { step: Step::Format, .. })
        }),
{
}

/// The setup after the block devices `blocks[0..j)` of the members are
/// reported in turn, from state `s`.
pub open spec fn after_inspections<K>(s: SetupView<K>, blocks: Seq<Option<Seq<char>>>, j: nat) -> SetupView<K>
    decreases j,
{
    if j == 0 {
        s
    } else {
        spec_step(after_inspections(s, blocks, (j - 1) as nat), EventView::MemberInspected(blocks[j - 1])).0
    }
}

/// The step that answers the report of `blocks[j - 1]`, from state `s`.
pub open spec fn inspection_answer<K>(s: SetupView<K>, blocks: Seq<Option<Seq<char>>>, j: nat) -> ActionView<K> {
    spec_step(after_inspections(s, blocks, (j - 1) as nat), EventView::MemberInspected(blocks[j - 1])).1
}

/// What recording one member keeps and adds to a pool summary.
proof fn lemma_record_keeps(sc: ScanView, index: usize, block: Option<Seq<char>>)
    ensures
        ({
            let r = spec_record(sc, index, block);
            &&& sc.last_index <= r.last_index
            &&& index <= r.last_index
            &&& forall|b: Seq<char>| sc.in_use.contains(b) ==> #[trigger] r.in_use.contains(b)
            &&& forall|m: usize| sc.missing.contains(m) ==> #[trigger] r.missing.contains(m)
            &&& block matches Some(b) ==> r.in_use.contains(b)
            &&& block is None ==> r.missing.contains(index)
        }),
{
    let r = spec_record(sc, index, block);
    assert forall|b: Seq<char>| sc.in_use.contains(b) implies #[trigger] r.in_use.contains(b) by {
        let k = choose|k: int| 0 <= k < sc.in_use.len() && sc.in_use[k] == b;
        assert(r.in_use[k] == b);
    }
    assert forall|m: usize| sc.missing.contains(m) implies #[trigger] r.missing.contains(m) by {
        let k = choose|k: int| 0 <= k < sc.missing.len() && sc.missing[k] == m;
        assert(r.missing[k] == m);
    }
    match block {
        Some(b) => {
            assert(r.in_use[r.in_use.len() - 1] == b);
        },
        None => {
            assert(r.missing[r.missing.len() - 1] == index);
        },
    }
}

/// What holds after the first `j` of the members have been inspected.
pub open spec fn inspected_so_far<K>(s1: SetupView<K>, t: SetupView<K>, blocks: Seq<Option<Seq<char>>>, j: nat) -> bool {
    &&& forall|k: int| 0 <= k < j ==> #[trigger] s1.members[k].0 <= t.scan.last_index
    &&& forall|k: int| 0 <= k < j && blocks[k] is Some ==> t.scan.in_use.contains(#[trigger] blocks[k]->0)
    &&& forall|k: int| 0 <= k < j && blocks[k] is None ==> t.scan.missing.contains(#[trigger] s1.members[k].0)
}

proof fn lemma_inspection_progress<K>(s1: SetupView<K>, blocks: Seq<Option<Seq<char>>>, j: nat)
    requires
        s1.phase == Phase::Inspecting,
        s1.next_member == 0,
        blocks.len() == s1.members.len(),
        j < s1.members.len(),
    ensures
        ({
            let t = after_inspections(s1, blocks, j);
            &&& t.phase == Phase::Inspecting
            &&& t.next_member == j
            &&& t.members == s1.members
            &&& inspected_so_far(s1, t, blocks, j)
        }),
    decreases j,
{
    if j > 0 {
        let p = after_inspections(s1, blocks, (j - 1) as nat);
        lemma_inspection_progress(s1, blocks, (j - 1) as nat);
        let t = after_inspections(s1, blocks, j);
        lemma_record_keeps(p.scan, s1.members[j - 1].0, blocks[j - 1]);
        assert(inspected_so_far(s1, t, blocks, j)) by {
            assert forall|k: int| 0 <= k < j implies #[trigger] s1.members[k].0 <= t.scan.last_index by {
                if k < j - 1 {
                    assert(s1.members[k].0 <= p.scan.last_index);
                }
            }
            assert forall|k: int| 0 <= k < j && blocks[k] is Some implies t.scan.in_use.contains(
                #[trigger] blocks[k]->0,
            ) by {
                if k < j - 1 {
                    assert(p.scan.in_use.contains(blocks[k]->0));
                }
            }
            assert forall|k: int| 0 <= k < j && blocks[k] is None implies t.scan.missing.contains(
                #[trigger] s1.members[k].0,
            ) by {
                if k < j - 1 {
                    assert(p.scan.missing.contains(s1.members[k].0));
                }
            }
        }
    }
}

/// Every listed member is inspected, in order: after the pool's sysfs
/// entries are listed with members m[0..n), the setup asks for m[0], and
/// answers each of the first n - 1 reports by asking for the next member;
/// only the n-th report leads on to finding the unused devices. By then
/// each member's number is at most the greatest member number, each
/// reported block device is in use, and each member without one is missing.
pub proof fn lemma_every_member_inspected<K>(
    s: SetupView<K>,
    entries: Seq<Option<Seq<char>>>,
    blocks: Seq<Option<Seq<char>>>,
)
    requires
        s.phase == Phase::Listing,
        blocks.len() == spec_members(entries).len(),
        blocks.len() > 0,
    ensures
        ({
            let m = spec_members(entries);
            let n = m.len();
            let (s1, a1) = spec_step(s, EventView::PoolListed(entries));
            let last = after_inspections(s1, blocks, n);
            &&& a1 == ActionView::<K>::InspectMember { entry: m[0].1 }
            &&& forall|j: nat|
                1 <= j < n ==> #[trigger] inspection_answer(s1, blocks, j) == ActionView::<K>::InspectMember {
                    entry: m[j as int].1,
                }
            &&& inspection_answer(s1, blocks, n) == ActionView::<K>::FindUnused
            &&& last.phase == Phase::FindingUnusedForUpdate
            &&& forall|k: int| 0 <= k < n ==> #[trigger] m[k].0 <= last.scan.last_index
            &&& forall|k: int| 0 <= k < n && blocks[k] is Some ==> last.scan.in_use.contains(#[trigger] blocks[k]->0)
            &&& forall|k: int| 0 <= k < n && blocks[k] is None ==> last.scan.missing.contains(#[trigger] m[k].0)
        }),
{
    let m = spec_members(entries);
    let n = m.len();
    let s1 = spec_step(s, EventView::PoolListed(entries)).0;
    assert(s1.members == m);
    assert forall|j: nat| 1 <= j < n implies #[trigger] inspection_answer(s1, blocks, j)
        == ActionView::<K>::InspectMember { entry: m[j as int].1 } by {
        lemma_inspection_progress(s1, blocks, (j - 1) as nat);
    }
    lemma_inspection_progress(s1, blocks, (n - 1) as nat);
    let p = after_inspections(s1, blocks, (n - 1) as nat);
    let last = after_inspections(s1, blocks, n);
    lemma_record_keeps(p.scan, m[n - 1].0, blocks[n - 1]);
    assert forall|k: int| 0 <= k < n implies #[trigger] m[k].0 <= last.scan.last_index by {
        if k < n - 1 {
            assert(m[k].0 <= p.scan.last_index);
        }
    }
    assert forall|k: int| 0 <= k < n && blocks[k] is Some implies last.scan.in_use.contains(#[trigger] blocks[k]->0) by {
        if k < n - 1 {
            assert(p.scan.in_use.contains(blocks[k]->0));
        }
    }
    assert forall|k: int| 0 <= k < n && blocks[k] is None implies last.scan.missing.contains(#[trigger] m[k].0) by {
        if k < n - 1 {
            assert(p.scan.missing.contains(m[k].0));
        }
    }
}

/// The members of a sysfs listing are exactly its entries whose names read
/// as `dev-<n>`, each with its number: every such entry is a member, and
/// every member is such an entry.
pub proof fn lemma_members_are_dev_entries(entries: Seq<Option<Seq<char>>>)
    ensures
        forall|k: int|
            0 <= k < entries.len() && (#[trigger] entries[k]) is Some && spec_member_index(entries[k]->0) is Some
                ==> spec_members(entries).contains((spec_member_index(entries[k]->0)->0, entries[k]->0)),
        forall|i: int|
            0 <= i < spec_members(entries).len() ==> exists|k: int|
                0 <= k < entries.len() && entries[k] == Some((#[trigger] spec_members(entries)[i]).1)
                    && spec_member_index(spec_members(entries)[i].1) == Some(spec_members(entries)[i].0),
    decreases entries.len(),
{
    if entries.len() > 0 {
        let prev = entries.drop_last();
        lemma_members_are_dev_entries(prev);
        let m = spec_members(entries);
        let pm = spec_members(prev);
        assert forall|k: int|
            0 <= k < entries.len() && (#[trigger] entries[k]) is Some && spec_member_index(entries[k]->0) is Some
                implies m.contains((spec_member_index(entries[k]->0)->0, entries[k]->0)) by {
            if k < prev.len() {
                assert(prev[k] == entries[k]);
                let x = (spec_member_index(entries[k]->0)->0, entries[k]->0);
                assert(pm.contains(x));
                let i = choose|i: int| 0 <= i < pm.len() && pm[i] == x;
                assert(m[i] == x);
            } else {
                assert(m[m.len() - 1] == (spec_member_index(entries[k]->0)->0, entries[k]->0));
            }
        }
        assert forall|i: int| 0 <= i < m.len() implies exists|k: int|
            0 <= k < entries.len() && entries[k] == Some((#[trigger] m[i]).1) && spec_member_index(m[i].1) == Some(
                m[i].0,
            ) by {
            if i < pm.len() {
                assert(m[i] == pm[i]);
                let k = choose|k: int|
                    0 <= k < prev.len() && prev[k] == Some(pm[i].1) && spec_member_index(pm[i].1) == Some(pm[i].0);
                assert(entries[k] == prev[k]);
            } else {
                assert(entries[entries.len() - 1] == Some(m[i].1));
            }
        }
    }
}

} // verus!
