use vstd::prelude::*;
use crate::record::{FileKind, FileRecord, opt_view};

verus! {

/// What a link-aware stat reports of a path, as plain values.
#[derive(Clone, Copy, Debug)]
pub struct StatInfo {
    pub is_file: bool,
    pub is_dir: bool,
    pub is_symlink: bool,
    pub size: u64,
    pub mode: u32,
    pub uid: u32,
    pub gid: u32,
    pub mtime: i64,
    pub ino: u64,
}

/// The kind of an entry: regular file, then directory, then symlink, else special.
pub open spec fn kind_spec(st: StatInfo) -> FileKind {
    if st.is_file {
        FileKind::File
    } else if st.is_dir {
        FileKind::Dir
    } else if st.is_symlink {
        FileKind::Symlink
    } else {
        FileKind::Special
    }
}

impl StatInfo {
    pub fn kind(&self) -> (r: FileKind)
        ensures
            r == kind_spec(*self),
    {
        if self.is_file {
            FileKind::File
        } else if self.is_dir {
            FileKind::Dir
        } else if self.is_symlink {
            FileKind::Symlink
        } else {
            FileKind::Special
        }
    }

    /// Whether the content of this entry is to be digested: regular files only.
    pub fn wants_digest(&self) -> (r: bool)
        ensures
            r == (kind_spec(*self) == FileKind::File),
    {
        self.is_file
    }
}

/// Builds the record of one path from its stat values and the digests that could be
/// computed (`None` where reading failed). Digests are kept for regular files only,
/// and the secondary one only when `want_sha256` is set.
pub fn to_record(
    path: String,
    st: &StatInfo,
    blake3: Option<String>,
    sha256: Option<String>,
    want_sha256: bool,
) -> (r: FileRecord)
    ensures
        r.path@ == path@,
        r.file_type == kind_spec(*st),
        r.size == st.size,
        r.mode == st.mode,
        r.uid == st.uid,
        r.gid == st.gid,
        r.mtime == st.mtime,
        r.inode == Some(st.ino),
        opt_view(r.blake3) == if st.is_file {
            opt_view(blake3)
        } else {
            None
        },
        opt_view(r.sha256) == if st.is_file && want_sha256 {
            opt_view(sha256)
        } else {
            None
        },
        crate::record::digests_well_placed(r@),
{
    let file_type = st.kind();
    let is_file = st.wants_digest();
    FileRecord {
        path,
        file_type,
        size: st.size,
        mode: st.mode,
        uid: st.uid,
        gid: st.gid,
        mtime: st.mtime,
        inode: Some(st.ino),
        blake3: if is_file {
            blake3
        } else {
            None
        },
        sha256: if is_file && want_sha256 {
            sha256
        } else {
            None
        },
    }
}

} // verus!
