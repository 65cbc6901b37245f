//! The decisions of a volume setup run that come before and after the
//! filesystem's own setup: where the volume goes, whether it is there
//! already, and which directories to create in it.

use vstd::prelude::*;
use vstd::string::*;
use crate::command::strings_view;
use crate::config::{Config, FilesystemMode, option_view, spec_mountpoint};
use crate::device::{LsblkDevice, DeviceView, devices_view, joined_path, path_join, already_mounted, spec_mounted_at};
use path_absolutize::Absolutize;

verus! {

/// The path starts at the root directory.
pub open spec fn is_absolute(p: Seq<char>) -> bool {
    p.len() > 0 && p[0] == '/'
}

/// An absolute path in the form that absolutizing keeps unchanged: no
/// trailing or doubled separator, and no component that starts with a dot
/// (so neither `.` nor `..`).
pub open spec fn is_plain_absolute(p: Seq<char>) -> bool {
    &&& p.len() >= 2
    &&& p[0] == '/'
    &&& p.last() != '/'
    &&& forall|i: int| 0 <= i < p.len() - 1 && #[trigger] p[i] == '/' ==> p[i + 1] != '/' && p[i + 1] != '.'
}

/// What `Path::absolutize` from the `path-absolutize` crate gives for an
/// absolute path: the path with `.` components dropped and `..` components
/// resolved, read from the path alone.
pub uninterp spec fn absolute_form(path: Seq<char>) -> Seq<char>;

/// `Path::new(path).absolutize()`, as text, with its I/O error reduced to
/// `None`. Whatever it gives is an absolute path, as the crate documents: a
/// relative path is resolved against the current directory, which can fail
/// and which no clause names; an absolute path never reads it, always
/// succeeds and gives the result named by `absolute_form`, which is the path
/// itself where it is already plain (the crate then hands back the path it
/// was given).
#[verifier::external_body]
fn absolutize_path(path: &str) -> (r: Option<String>)
    ensures
        r matches Some(s) ==> is_absolute(s@),
        is_absolute(path@) ==> r is Some && option_view(r) == Some(absolute_form(path@)),
        is_plain_absolute(path@) ==> option_view(r) == Some(path@),
{
    match std::path::Path::new(path).absolutize() {
        Ok(p) => Some(p.to_string_lossy().into_owned()),
        Err(_) => None,
    }
}

/// Why a volume setup cannot go on.
#[derive(Clone, Copy, Debug, PartialEq, Eq, Structural)]
pub enum VolumeError {
    /// The configured mountpoint could not be made absolute.
    MountpointNotAbsolute,
}

/// The absolute path the volume is mounted at: the configured mountpoint
/// (`/mnt/persistent` by default), made absolute. Whatever it gives is
/// absolute; an absolute mountpoint always succeeds, and a plain one is kept
/// as it is.
pub fn resolve_mount_path<K>(config: &Config<K>) -> (r: Result<String, VolumeError>)
    ensures
        ({
            let p = spec_mountpoint(option_view(config.mountpoint));
            &&& r matches Ok(m) ==> is_absolute(m@)
            &&& is_absolute(p) ==> (r matches Ok(m) && m@ == absolute_form(p))
            &&& is_plain_absolute(p) ==> (r matches Ok(m) && m@ == p)
        }),
{
    let p = config.mountpoint_or_default();
    match absolutize_path(p.as_str()) {
        Some(m) => Ok(m),
        None => Err(VolumeError::MountpointNotAbsolute),
    }
}

/// The directories to create below the mount path: each configured one
/// joined onto it, in order (none where none are configured).
pub open spec fn spec_ensure_dir_targets(mount_path: Seq<char>, dirs: Option<Seq<Seq<char>>>) -> Seq<Seq<char>> {
    match dirs {
        Some(d) => d.map_values(|rel: Seq<char>| joined_path(mount_path, rel)),
        None => seq![],
    }
}

/// The paths of the directories to create below `mount_path`.
pub fn ensure_dir_targets(mount_path: &str, dirs: &Option<Vec<String>>) -> (r: Vec<String>)
    ensures
        strings_view(r@) == spec_ensure_dir_targets(
            mount_path@,
            match dirs {
                Some(d) => Some(strings_view(d@)),
                None => None,
            },
        ),
{
    let mut out: Vec<String> = Vec::new();
    match dirs {
        Some(d) => {
            let ghost want = strings_view(d@).map_values(|rel: Seq<char>| joined_path(mount_path@, rel));
            let mut i: usize = 0;
            while i < d.len()
                invariant
                    i <= d.len(),
                    want == strings_view(d@).map_values(|rel: Seq<char>| joined_path(mount_path@, rel)),
                    strings_view(out@) =~= want.take(i as int),
                decreases d.len() - i,
            {
                let j = path_join(mount_path, d[i].as_str());
                let ghost prev = strings_view(out@);
                out.push(j);
                assert(strings_view(out@) =~= prev.push(j@));
                i = i + 1;
            }
            assert(want.take(d.len() as int) =~= want);
        },
        None => {
            assert(strings_view(out@) =~= seq![]);
        },
    }
    out
}

/// How a volume setup run ended.
#[derive(Clone, Copy, Debug, PartialEq, Eq, Structural)]
pub enum VolumeOutcome {
    /// The volume is set up and its directories exist.
    Done,
    /// The volume was mounted already; nothing was done.
    AlreadyMounted,
    /// A step failed; its error is the caller's.
    Failed,
}

/// Where a volume setup run stands.
#[derive(Clone, Copy, Debug, PartialEq, Eq, Structural)]
pub enum VolumePhase {
    /// Waiting for the block devices.
    Listing,
    /// Waiting for the filesystem to be set up and mounted.
    SettingUp,
    /// Waiting for the directory before `next_dir` to be created.
    CreatingDirs,
    /// The run has ended.
    Finished,
}

/// What the caller reports of the last step it performed.
pub enum VolumeEvent {
    /// The block devices of the machine.
    BlocksListed(Vec<LsblkDevice>),
    /// The filesystem is set up and mounted.
    FilesystemReady,
    /// The directory was created (or existed).
    DirCreated,
    /// The step failed.
    Failed,
}

/// The mathematical content of a [`VolumeEvent`].
pub enum VolumeEventView {
    BlocksListed(Seq<DeviceView>),
    FilesystemReady,
    DirCreated,
    Failed,
}

impl View for VolumeEvent {
    type V = VolumeEventView;

    open spec fn view(&self) -> VolumeEventView {
        match self {
            VolumeEvent::BlocksListed(b) => VolumeEventView::BlocksListed(devices_view(b@)),
            VolumeEvent::FilesystemReady => VolumeEventView::FilesystemReady,
            VolumeEvent::DirCreated => VolumeEventView::DirCreated,
            VolumeEvent::Failed => VolumeEventView::Failed,
        }
    }
}

/// The next step for the caller to perform.
pub enum VolumeAction {
    /// List the block devices, and report them.
    ListBlocks,
    /// Set up the filesystem `mode` at the mount path over `blocks`, and
    /// report when it is mounted.
    SetUpFilesystem { mode: FilesystemMode, blocks: Vec<LsblkDevice> },
    /// Create the directory `path` with its parents, and report it.
    CreateDir { path: String },
    /// The run has ended.
    Finish { outcome: VolumeOutcome },
}

/// The mathematical content of a [`VolumeAction`].
pub enum VolumeActionView {
    ListBlocks,
    SetUpFilesystem { mode: FilesystemMode, blocks: Seq<DeviceView> },
    CreateDir { path: Seq<char> },
    Finish { outcome: VolumeOutcome },
}

impl View for VolumeAction {
    type V = VolumeActionView;

    open spec fn view(&self) -> VolumeActionView {
        match self {
            VolumeAction::ListBlocks => VolumeActionView::ListBlocks,
            VolumeAction::SetUpFilesystem { mode, blocks } => VolumeActionView::SetUpFilesystem {
                mode: *mode,
                blocks: devices_view(blocks@),
            },
            VolumeAction::CreateDir { path } => VolumeActionView::CreateDir { path: path@ },
            VolumeAction::Finish { outcome } => VolumeActionView::Finish { outcome: *outcome },
        }
    }
}

/// A volume setup run in progress: the mount path, the filesystem, and the
/// directories to create once it is mounted.
pub struct VolumeRun {
    pub mount_path: String,
    pub mode: FilesystemMode,
    pub dirs: Vec<String>,
    pub phase: VolumePhase,
    pub next_dir: usize,
}

/// The mathematical content of a [`VolumeRun`].
#[verifier::ext_equal]
pub struct VolumeRunView {
    pub mount_path: Seq<char>,
    pub mode: FilesystemMode,
    pub dirs: Seq<Seq<char>>,
    pub phase: VolumePhase,
    pub next_dir: nat,
}

impl View for VolumeRun {
    type V = VolumeRunView;

    open spec fn view(&self) -> VolumeRunView {
        VolumeRunView {
            mount_path: self.mount_path@,
            mode: self.mode,
            dirs: strings_view(self.dirs@),
            phase: self.phase,
            next_dir: self.next_dir as nat,
        }
    }
}

/// The positions stay within the list of directories.
pub open spec fn volume_wf(s: VolumeRunView) -> bool {
    s.phase == VolumePhase::CreatingDirs ==> 0 < s.next_dir <= s.dirs.len()
}

/// Whether a run in state `s` takes event `e`: each phase waits for one
/// kind of report, and any phase but the end also takes a failure.
pub open spec fn spec_volume_accepts(s: VolumeRunView, e: VolumeEventView) -> bool {
    match e {
        VolumeEventView::Failed => s.phase != VolumePhase::Finished,
        VolumeEventView::BlocksListed(_) => s.phase == VolumePhase::Listing,
        VolumeEventView::FilesystemReady => s.phase == VolumePhase::SettingUp,
        VolumeEventView::DirCreated => s.phase == VolumePhase::CreatingDirs,
    }
}

/// The next directory to create, or the end of the run.
pub open spec fn next_dir_or_done(s: VolumeRunView) -> (VolumeRunView, VolumeActionView) {
    if s.next_dir < s.dirs.len() {
        (
            VolumeRunView { phase: VolumePhase::CreatingDirs, next_dir: s.next_dir + 1, ..s },
            VolumeActionView::CreateDir { path: s.dirs[s.next_dir as int] },
        )
    } else {
        (
            VolumeRunView { phase: VolumePhase::Finished, ..s },
            VolumeActionView::Finish { outcome: VolumeOutcome::Done },
        )
    }
}

/// The next state and step of a run, from state `s` and report `e`: where
/// the volume is mounted already the run ends; otherwise the filesystem is
/// set up, then each directory is created in order.
pub open spec fn spec_volume_step(s: VolumeRunView, e: VolumeEventView) -> (VolumeRunView, VolumeActionView) {
    match e {
        VolumeEventView::Failed => (
            VolumeRunView { phase: VolumePhase::Finished, ..s },
            VolumeActionView::Finish { outcome: VolumeOutcome::Failed },
        ),
        VolumeEventView::BlocksListed(blocks) => if spec_mounted_at(blocks, s.mount_path) {
            (
                VolumeRunView { phase: VolumePhase::Finished, ..s },
                VolumeActionView::Finish { outcome: VolumeOutcome::AlreadyMounted },
            )
        } else {
            (
                VolumeRunView { phase: VolumePhase::SettingUp, ..s },
                VolumeActionView::SetUpFilesystem { mode: s.mode, blocks },
            )
        },
        VolumeEventView::FilesystemReady => next_dir_or_done(VolumeRunView { next_dir: 0, ..s }),
        VolumeEventView::DirCreated => next_dir_or_done(s),
    }
}

impl VolumeRun {
    /// Starts a run that mounts `mode` at `mount_path` and then creates the
    /// directories `dirs`; the first step lists the block devices.
    pub fn start(mount_path: String, mode: FilesystemMode, dirs: Vec<String>) -> (r: (VolumeRun, VolumeAction))
        ensures
            r.0@ == (VolumeRunView {
                mount_path: mount_path@,
                mode,
                dirs: strings_view(dirs@),
                phase: VolumePhase::Listing,
                next_dir: 0,
            }),
            volume_wf(r.0@),
            r.1@ == VolumeActionView::ListBlocks,
    {
        (VolumeRun { mount_path, mode, dirs, phase: VolumePhase::Listing, next_dir: 0 }, VolumeAction::ListBlocks)
    }

    fn next_dir_or_done(&mut self) -> (a: VolumeAction)
        requires
            old(self).next_dir <= old(self).dirs.len(),
        ensures
            (final(self)@, a@) == next_dir_or_done(old(self)@),
    {
        if self.next_dir < self.dirs.len() {
            let path = self.dirs[self.next_dir].clone();
            assert(strings_view(self.dirs@)[self.next_dir as int] == path@);
            self.phase = VolumePhase::CreatingDirs;
            self.next_dir = self.next_dir + 1;
            assert(self@ =~= next_dir_or_done(old(self)@).0);
            VolumeAction::CreateDir { path }
        } else {
            self.phase = VolumePhase::Finished;
            assert(self@ =~= next_dir_or_done(old(self)@).0);
            VolumeAction::Finish { outcome: VolumeOutcome::Done }
        }
    }

    /// Whether the run takes `e` now.
    pub fn accepts(&self, e: &VolumeEvent) -> (r: bool)
        ensures
            r == spec_volume_accepts(self@, e@),
    {
        match e {
            VolumeEvent::Failed => self.phase != VolumePhase::Finished,
            VolumeEvent::BlocksListed(_) => self.phase == VolumePhase::Listing,
            VolumeEvent::FilesystemReady => self.phase == VolumePhase::SettingUp,
            VolumeEvent::DirCreated => self.phase == VolumePhase::CreatingDirs,
        }
    }

    /// Takes the report `e` of the last step, and gives the next step.
    pub fn step(&mut self, e: VolumeEvent) -> (a: VolumeAction)
        requires
            volume_wf(old(self)@),
            spec_volume_accepts(old(self)@, e@),
        ensures
            volume_wf(final(self)@),
            (final(self)@, a@) == spec_volume_step(old(self)@, e@),
    {
        let ghost ev = e@;
        match e {
            VolumeEvent::Failed => {
                self.phase = VolumePhase::Finished;
                assert(self@ =~= spec_volume_step(old(self)@, ev).0);
                VolumeAction::Finish { outcome: VolumeOutcome::Failed }
            },
            VolumeEvent::BlocksListed(blocks) => {
                if already_mounted(&blocks, &self.mount_path) {
                    self.phase = VolumePhase::Finished;
                    assert(self@ =~= spec_volume_step(old(self)@, ev).0);
                    VolumeAction::Finish { outcome: VolumeOutcome::AlreadyMounted }
                } else {
                    self.phase = VolumePhase::SettingUp;
                    assert(self@ =~= spec_volume_step(old(self)@, ev).0);
                    VolumeAction::SetUpFilesystem { mode: self.mode, blocks }
                }
            },
            VolumeEvent::FilesystemReady => {
                self.next_dir = 0;
                self.next_dir_or_done()
            },
            VolumeEvent::DirCreated => self.next_dir_or_done(),
        }
    }

    /// [`VolumeRun::step`] where the run takes `e`; where it does not,
    /// `None`, and the run is left as it was.
    pub fn step_checked(&mut self, e: VolumeEvent) -> (r: Option<VolumeAction>)
        requires
            volume_wf(old(self)@),
        ensures
            volume_wf(final(self)@),
            r is Some <==> spec_volume_accepts(old(self)@, e@),
            r is None ==> final(self)@ == old(self)@,
            r matches Some(a) ==> (final(self)@, a@) == spec_volume_step(old(self)@, e@),
    {
        if self.accepts(&e) {
            Some(self.step(e))
        } else {
            None
        }
    }
}

/// A volume that is mounted already is left alone: the run ends at once,
/// and no filesystem is set up.
pub proof fn lemma_mounted_volume_left_alone(s: VolumeRunView, blocks: Seq<DeviceView>)
    requires
        s.phase == VolumePhase::Listing,
        spec_mounted_at(blocks, s.mount_path),
    ensures
        spec_volume_step(s, VolumeEventView::BlocksListed(blocks)).1 == (VolumeActionView::Finish {
            outcome: VolumeOutcome::AlreadyMounted,
        }),
{
}

/// Directories are created only once the filesystem is ready, each in
/// turn: after the filesystem and the first k directories, the next step
/// creates directory k, or ends the run where there are no more.
pub proof fn lemma_dirs_in_order(s: VolumeRunView, k: nat)
    requires
        s.phase == VolumePhase::SettingUp || (s.phase == VolumePhase::CreatingDirs && s.next_dir == k && k > 0),
        s.phase == VolumePhase::SettingUp ==> k == 0,
        k <= s.dirs.len(),
    ensures
        ({
            let e = if s.phase == VolumePhase::SettingUp {
                VolumeEventView::FilesystemReady
            } else {
                VolumeEventView::DirCreated
            };
            let (t, a) = spec_volume_step(s, e);
            &&& k < s.dirs.len() ==> a == (VolumeActionView::CreateDir { path: s.dirs[k as int] }) && t.next_dir == k + 1
            &&& k == s.dirs.len() ==> a == (VolumeActionView::Finish { outcome: VolumeOutcome::Done })
        }),
{
}

/// Where no listed device is mounted at the mount path, the run sets up
/// the filesystem it was started with, over the devices as listed.
pub proof fn lemma_configured_filesystem_set_up(s: VolumeRunView, blocks: Seq<DeviceView>)
    requires
        s.phase == VolumePhase::Listing,
        forall|i: int, j: int|
            0 <= i < blocks.len() && 0 <= j < blocks[i].mountpoints.len() ==> blocks[i].mountpoints[j] != Some(
                s.mount_path,
            ),
    ensures
        spec_volume_step(s, VolumeEventView::BlocksListed(blocks)) == (
            VolumeRunView { phase: VolumePhase::SettingUp, ..s },
            VolumeActionView::SetUpFilesystem { mode: s.mode, blocks },
        ),
{
    assert(!spec_mounted_at(blocks, s.mount_path));
}

} // verus!
