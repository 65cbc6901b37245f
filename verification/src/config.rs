//! The parts of the volume configuration that the setup decisions read.

use vstd::prelude::*;
use vstd::string::*;

verus! {

/// The filesystem that the volume is built with.
#[derive(Clone, Copy, Debug, PartialEq, Eq, Structural)]
pub enum FilesystemMode {
    Ext4,
    Bcachefs,
}

/// How the volume's encryption key is obtained, if it is encrypted. `K` is
/// the image's description of how a key is unlocked; the setup hands it on
/// to the key fetch without reading it.
#[derive(Clone, Debug, PartialEq, Eq)]
pub enum EncryptionMode<K> {
    /// Not encrypted.
    Unencrypted,
    /// Encrypted with the key shared by all images.
    DirectKey { key_mode: K },
    /// Encrypted with a private key that is stored, itself encrypted, in the
    /// file `key_path`.
    IndirectKey { key_path: String, key_mode: K },
}

/// The mathematical content of an [`EncryptionMode`].
pub enum EncryptionModeView<K> {
    Unencrypted,
    DirectKey { key_mode: K },
    IndirectKey { key_path: Seq<char>, key_mode: K },
}

impl<K> View for EncryptionMode<K> {
    type V = EncryptionModeView<K>;

    open spec fn view(&self) -> EncryptionModeView<K> {
        match self {
            EncryptionMode::Unencrypted => EncryptionModeView::Unencrypted,
            EncryptionMode::DirectKey { key_mode } => EncryptionModeView::DirectKey { key_mode: *key_mode },
            EncryptionMode::IndirectKey { key_path, key_mode } => EncryptionModeView::IndirectKey {
                key_path: key_path@,
                key_mode: *key_mode,
            },
        }
    }
}

/// The view of an optional encryption mode.
pub open spec fn encryption_view<K>(e: Option<EncryptionMode<K>>) -> Option<EncryptionModeView<K>> {
    match e {
        Some(m) => Some(m@),
        None => None,
    }
}

/// Volume configuration; a field that is `None` takes its default.
pub struct Config<K> {
    /// Where the volume is mounted (default `/mnt/persistent`).
    pub mountpoint: Option<String>,
    /// Which filesystem to use (default ext4).
    pub fs: Option<FilesystemMode>,
    /// The UUID of the bcachefs pool (default: the pool UUID of the image).
    pub uuid: Option<String>,
    /// How the volume is encrypted (default: not encrypted).
    pub encryption: Option<EncryptionMode<K>>,
    /// Directories to create below the mountpoint once it is mounted.
    pub ensure_dirs: Option<Vec<String>>,
}

/// The filesystem chosen by a configuration.
pub open spec fn spec_filesystem(fs: Option<FilesystemMode>) -> FilesystemMode {
    match fs {
        Some(m) => m,
        None => FilesystemMode::Ext4,
    }
}

/// The encryption chosen by a configuration.
pub open spec fn spec_encryption<K>(e: Option<EncryptionModeView<K>>) -> EncryptionModeView<K> {
    match e {
        Some(m) => m,
        None => EncryptionModeView::Unencrypted,
    }
}

/// The mountpoint chosen by a configuration, before it is made absolute.
pub open spec fn spec_mountpoint(m: Option<Seq<char>>) -> Seq<char> {
    match m {
        Some(p) => p,
        None => "/mnt/persistent"@,
    }
}

/// The pool UUID chosen by a configuration, given the image's own pool UUID.
pub open spec fn spec_pool_uuid(u: Option<Seq<char>>, outer_uuid: Seq<char>) -> Seq<char> {
    match u {
        Some(v) => v,
        None => outer_uuid,
    }
}

/// The characters of an optional string.
pub open spec fn option_view(o: Option<String>) -> Option<Seq<char>> {
    match o {
        Some(s) => Some(s@),
        None => None,
    }
}

impl<K> Config<K> {
    /// The filesystem to build: ext4 unless the configuration says otherwise.
    pub fn filesystem(&self) -> (m: FilesystemMode)
        ensures
            m == spec_filesystem(self.fs),
    {
        match self.fs {
            Some(m) => m,
            None => FilesystemMode::Ext4,
        }
    }

    /// The mountpoint as configured, `/mnt/persistent` where none is.
    pub fn mountpoint_or_default(&self) -> (p: String)
        ensures
            p@ == spec_mountpoint(option_view(self.mountpoint)),
    {
        match &self.mountpoint {
            Some(p) => p.clone(),
            None => String::from_str("/mnt/persistent"),
        }
    }

    /// The pool UUID as configured, `outer_uuid` where none is.
    pub fn pool_uuid(&self, outer_uuid: &str) -> (u: String)
        ensures
            u@ == spec_pool_uuid(option_view(self.uuid), outer_uuid@),
    {
        match &self.uuid {
            Some(u) => u.clone(),
            None => String::from_str(outer_uuid),
        }
    }
}

} // verus!
