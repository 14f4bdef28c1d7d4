//! One listed file system entry, as plain values read from its metadata.
use vstd::prelude::*;
use crate::git::GitStatus;
use crate::path::{file_name, file_name_of};
use crate::theme::colors::{is_symlink_mode, mode_is_symlink};

verus! {

/// A listed entry. The reader fills it from the entry's `symlink_metadata`,
/// the user and group databases and the local time zone.
pub struct Entry {
    /// The path as given or found by the walk.
    pub path: String,
    /// The bytes of the absolute path (symbolic links are not resolved).
    pub abs_path: Vec<u8>,
    /// `st_mode`: file type and permission bits.
    pub mode: u32,
    /// Number of hard links.
    pub nlink: u64,
    pub uid: u32,
    pub gid: u32,
    /// Size in bytes.
    pub size: u64,
    /// The owner's user name, if the user database knows the uid.
    pub owner: Option<String>,
    /// The group name, if the group database knows the gid.
    pub group: Option<String>,
    /// The modification time in local time as "%b %d %H:%M".
    pub modified: String,
    /// The file name (or the whole path when it has none).
    pub name: String,
    /// The target of a symbolic link.
    pub link_target: Option<String>,
    /// The entries below a directory, when the walk went into it.
    pub children: Option<Vec<Entry>>,
    pub git_status: Option<GitStatus>,
}

/// What the reader takes from an entry's `symlink_metadata` and the user and
/// group databases.
pub struct Metadata {
    /// `st_mode`: file type and permission bits.
    pub mode: u32,
    /// Number of hard links.
    pub nlink: u64,
    pub uid: u32,
    pub gid: u32,
    /// Size in bytes.
    pub size: u64,
    /// The owner's user name, if the user database knows the uid.
    pub owner: Option<String>,
    /// The group name, if the group database knows the gid.
    pub group: Option<String>,
    /// The modification time in local time as "%b %d %H:%M".
    pub modified: String,
}

/// The name an entry is listed under: its file name, or the whole path when
/// the path has none (a root, or a path ending in "..").
pub open spec fn entry_name(path: Seq<char>) -> Seq<char> {
    match file_name_of(path) {
        Some(n) => n,
        None => path,
    }
}

impl Entry {
    /// The entry at `path` with the metadata read there; `link_target` is what
    /// reading the link gave, kept only when the entry is a symbolic link.
    /// Children and Git status are filled in later.
    pub fn from_path(path: &str, abs_path: Vec<u8>, metadata: Metadata, link_target: Option<String>) -> (r: Entry)
        ensures
            r.path@ == path@,
            r.abs_path@ == abs_path@,
            r.mode == metadata.mode,
            r.nlink == metadata.nlink,
            r.uid == metadata.uid,
            r.gid == metadata.gid,
            r.size == metadata.size,
            r.owner == metadata.owner,
            r.group == metadata.group,
            r.modified == metadata.modified,
            r.name@ == entry_name(path@),
            r.link_target == (if mode_is_symlink(metadata.mode) { link_target } else { None }),
            r.children is None,
            r.git_status is None,
    {
        let name = match file_name(path) {
            Some(n) => n,
            None => String::from_str(path),
        };
        let link_target = if is_symlink_mode(metadata.mode) { link_target } else { None };
        Entry {
            path: String::from_str(path),
            abs_path,
            mode: metadata.mode,
            nlink: metadata.nlink,
            uid: metadata.uid,
            gid: metadata.gid,
            size: metadata.size,
            owner: metadata.owner,
            group: metadata.group,
            modified: metadata.modified,
            name,
            link_target,
            children: None,
            git_status: None,
        }
    }
}

} // verus!
