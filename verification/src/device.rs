//! Block devices as `lsblk` reports them, and the path operations that the
//! setup applies to their names.

use vstd::prelude::*;
use vstd::string::*;
use crate::config::option_view;
use loga::DebugDisplay;

verus! {

/// A block device as listed by `lsblk`.
pub struct LsblkDevice {
    /// The device node, such as `/dev/sda`.
    pub path: String,
    /// Whether the device is rotational; unknown where `None`.
    pub rota: Option<bool>,
    /// Where the device is mounted; an entry is `None` where lsblk reports
    /// a mount without a path.
    pub mountpoints: Vec<Option<String>>,
}

/// The mathematical content of an [`LsblkDevice`].
pub struct DeviceView {
    pub path: Seq<char>,
    pub rota: Option<bool>,
    pub mountpoints: Seq<Option<Seq<char>>>,
}

impl View for LsblkDevice {
    type V = DeviceView;

    open spec fn view(&self) -> DeviceView {
        DeviceView {
            path: self.path@,
            rota: self.rota,
            mountpoints: self.mountpoints@.map_values(|m: Option<String>| option_view(m)),
        }
    }
}

/// The views of a list of devices.
pub open spec fn devices_view(v: Seq<LsblkDevice>) -> Seq<DeviceView> {
    v.map_values(|d: LsblkDevice| d@)
}

/// Some device in `blocks` is mounted at `path`.
pub open spec fn spec_mounted_at(blocks: Seq<DeviceView>, path: Seq<char>) -> bool {
    exists|i: int, j: int|
        0 <= i < blocks.len() && 0 <= j < blocks[i].mountpoints.len() && #[trigger] blocks[i].mountpoints[j]
            == Some(path)
}

/// Whether one of `blocks` is already mounted at `mount_path`.
pub fn already_mounted(blocks: &Vec<LsblkDevice>, mount_path: &String) -> (r: bool)
    ensures
        r == spec_mounted_at(devices_view(blocks@), mount_path@),
{
    let ghost bv = devices_view(blocks@);
    let mut i: usize = 0;
    while i < blocks.len()
        invariant
            i <= blocks.len(),
            bv == devices_view(blocks@),
            forall|a: int, b: int|
                0 <= a < i && 0 <= b < bv[a].mountpoints.len() ==> #[trigger] bv[a].mountpoints[b]
                    != Some(mount_path@),
        decreases blocks.len() - i,
    {
        let block = &blocks[i];
        assert(bv[i as int] == block@);
        let mut j: usize = 0;
        while j < block.mountpoints.len()
            invariant
                i < blocks.len(),
                block == &blocks@[i as int],
                bv == devices_view(blocks@),
                bv[i as int] == block@,
                j <= block.mountpoints.len(),
                forall|a: int, b: int|
                    0 <= a < i && 0 <= b < bv[a].mountpoints.len() ==> #[trigger] bv[a].mountpoints[b]
                        != Some(mount_path@),
                forall|b: int| 0 <= b < j ==> #[trigger] bv[i as int].mountpoints[b] != Some(mount_path@),
            decreases block.mountpoints.len() - j,
        {
            let entry = &block.mountpoints[j];
            assert(bv[i as int].mountpoints[j as int] == option_view(*entry));
            match entry {
                Some(mp) => {
                    assert(option_view(*entry) == Some(mp@));
                    if mp.eq(mount_path) {
                        assert(bv[i as int].mountpoints[j as int] == Some(mount_path@));
                        return true;
                    }
                },
                None => {},
            }
            j = j + 1;
        }
        i = i + 1;
    }
    false
}

/// What `Path::file_name` gives for a path: its last component, if that is
/// a normal name.
pub uninterp spec fn file_name_of(path: Seq<char>) -> Option<Seq<char>>;

/// The text that `{:?}` writes for a path: the path quoted, with special
/// characters escaped.
pub uninterp spec fn path_debug_text(path: Seq<char>) -> Seq<char>;

/// `Path::new(path).file_name()`, as text. Its result is named by
/// `file_name_of`; nothing more is claimed of it. The name of a path given
/// as UTF-8 is a part of it, so the text conversion loses nothing.
#[verifier::external_body]
pub(crate) fn path_file_name(path: &str) -> (r: Option<String>)
    ensures
        option_view(r) == file_name_of(path@),
{
    match std::path::Path::new(path).file_name() {
        Some(n) => Some(n.to_string_lossy().into_owned()),
        None => None,
    }
}

/// What `Path::join` gives on Unix, as `Path::join` and `PathBuf::push`
/// describe it: an absolute `rel` replaces `base`; otherwise `rel` is
/// appended, after a separator unless `base` is empty or already ends in one.
pub open spec fn joined_path(base: Seq<char>, rel: Seq<char>) -> Seq<char> {
    if rel.len() > 0 && rel[0] == '/' {
        rel
    } else if base.len() == 0 || base.last() == '/' {
        base + rel
    } else {
        base + "/"@ + rel
    }
}

/// `Path::new(base).join(rel)`, as text.
pub fn path_join(base: &str, rel: &str) -> (r: String)
    ensures
        r@ == joined_path(base@, rel@),
{
    let rel_len = rel.unicode_len();
    if rel_len > 0 && rel.get_char(0) == '/' {
        return String::from_str(rel);
    }
    let base_len = base.unicode_len();
    if base_len == 0 || base.get_char(base_len - 1) == '/' {
        String::from_str(base).concat(rel)
    } else {
        String::from_str(base).concat("/").concat(rel)
    }
}

/// The debug text of a path, as `loga`'s `dbg_str` writes it for a
/// `PathBuf` (that is, `format!("{:?}", ..)`). Its result is named by
/// `path_debug_text`; nothing more is claimed of it.
#[verifier::external_body]
pub(crate) fn path_debug(path: &str) -> (r: String)
    ensures
        r@ == path_debug_text(path@),
{
    std::path::PathBuf::from(path).dbg_str()
}

/// `lines` joined with a newline between each two.
pub open spec fn join_lines(lines: Seq<Seq<char>>) -> Seq<char>
    decreases lines.len(),
{
    if lines.len() == 0 {
        seq![]
    } else if lines.len() == 1 {
        lines[0]
    } else {
        join_lines(lines.drop_last()) + "\n"@ + lines.last()
    }
}

/// The listing of candidate devices: the debug form of each device path,
/// one per line.
pub open spec fn spec_candidate_listing(devices: Seq<DeviceView>) -> Seq<char> {
    join_lines(devices.map_values(|d: DeviceView| path_debug_text(d.path)))
}

/// The text that lists `candidates`, one device path per line.
pub fn candidate_listing(candidates: &Vec<LsblkDevice>) -> (r: String)
    ensures
        r@ == spec_candidate_listing(devices_view(candidates@)),
{
    let ghost lines = devices_view(candidates@).map_values(|d: DeviceView| path_debug_text(d.path));
    let mut out = String::new();
    let mut i: usize = 0;
    while i < candidates.len()
        invariant
            i <= candidates.len(),
            lines == devices_view(candidates@).map_values(|d: DeviceView| path_debug_text(d.path)),
            out@ == join_lines(lines.take(i as int)),
        decreases candidates.len() - i,
    {
        let text = path_debug(candidates[i].path.as_str());
        assert(lines[i as int] == text@);
        assert(lines.take(i + 1).drop_last() =~= lines.take(i as int));
        if i == 0 {
            out = text;
            assert(lines.take(1) =~= seq![text@]);
        } else {
            proof {
                reveal_strlit("\n");
            }
            out.append("\n");
            out.append(text.as_str());
            assert(out@ =~= join_lines(lines.take(i as int)) + "\n"@ + text@);
        }
        i = i + 1;
    }
    assert(lines.take(candidates.len() as int) =~= lines);
    out
}

/// The candidate listing holds one line per device, in order, with a
/// newline between each two: nothing for no devices, the one path for one
/// device, and one more line for each device added after that.
pub proof fn lemma_candidate_listing_lines(devs: Seq<DeviceView>, x: DeviceView)
    ensures
        spec_candidate_listing(Seq::<DeviceView>::empty()) == Seq::<char>::empty(),
        spec_candidate_listing(seq![x]) == path_debug_text(x.path),
        devs.len() > 0 ==> spec_candidate_listing(devs.push(x)) == spec_candidate_listing(devs) + "\n"@
            + path_debug_text(x.path),
{
    let f = |d: DeviceView| path_debug_text(d.path);
    assert(Seq::<DeviceView>::empty().map_values(f) =~= Seq::<Seq<char>>::empty());
    assert(seq![x].map_values(f) =~= seq![path_debug_text(x.path)]);
    let whole = devs.push(x).map_values(f);
    assert(whole.drop_last() =~= devs.map_values(f));
    assert(whole.last() == path_debug_text(x.path));
}

} // verus!
