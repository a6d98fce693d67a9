use vstd::prelude::*;

verus! {

/// The kind of a filesystem entry, determined without following symlinks.
#[derive(Clone, Copy, Debug, PartialEq, Eq, Structural)]
pub enum FileKind {
    File,
    Dir,
    Symlink,
    Special,
}

/// The persisted name of each kind.
pub open spec fn kind_name(k: FileKind) -> Seq<char> {
    match k {
        FileKind::File => "file"@,
        FileKind::Dir => "dir"@,
        FileKind::Symlink => "symlink"@,
        FileKind::Special => "special"@,
    }
}

/// The kind whose persisted name is `s`, if any.
pub open spec fn kind_of_name(s: Seq<char>) -> Option<FileKind> {
    if s == "file"@ {
        Some(FileKind::File)
    } else if s == "dir"@ {
        Some(FileKind::Dir)
    } else if s == "symlink"@ {
        Some(FileKind::Symlink)
    } else if s == "special"@ {
        Some(FileKind::Special)
    } else {
        None
    }
}

impl FileKind {
    /// The persisted name of this kind.
    pub fn name(&self) -> (r: String)
        ensures
            r@ == kind_name(*self),
    {
        match self {
            FileKind::File => String::from_str("file"),
            FileKind::Dir => String::from_str("dir"),
            FileKind::Symlink => String::from_str("symlink"),
            FileKind::Special => String::from_str("special"),
        }
    }

    /// Reads a persisted kind name; `None` for any other text.
    pub fn from_name(s: &String) -> (r: Option<FileKind>)
        ensures
            r == kind_of_name(s@),
    {
        proof {
            reveal_strlit("file");
            reveal_strlit("dir");
            reveal_strlit("symlink");
            reveal_strlit("special");
        }
        if *s == String::from_str("file") {
            Some(FileKind::File)
        } else if *s == String::from_str("dir") {
            Some(FileKind::Dir)
        } else if *s == String::from_str("symlink") {
            Some(FileKind::Symlink)
        } else if *s == String::from_str("special") {
            Some(FileKind::Special)
        } else {
            None
        }
    }
}

/// Reading back the name of a kind gives that kind.
pub proof fn lemma_kind_name_round_trip(k: FileKind)
    ensures
        kind_of_name(kind_name(k)) == Some(k),
{
    reveal_strlit("file");
    reveal_strlit("dir");
    reveal_strlit("symlink");
    reveal_strlit("special");
    assert("dir"@.len() != "file"@.len());
    assert("symlink"@.len() != "file"@.len() && "symlink"@.len() != "dir"@.len());
    assert("special"@.len() != "file"@.len() && "special"@.len() != "dir"@.len());
    assert("special"@[1] != "symlink"@[1]);
}

/// One observed filesystem path with its metadata and content digests.
#[derive(Clone, Debug)]
pub struct FileRecord {
    pub path: String,
    pub file_type: FileKind,
    pub size: u64,
    pub mode: u32,
    pub uid: u32,
    pub gid: u32,
    pub mtime: i64,
    pub inode: Option<u64>,
    pub blake3: Option<String>,
    pub sha256: Option<String>,
}

/// The view of an optional string.
pub open spec fn opt_view(o: Option<String>) -> Option<Seq<char>> {
    match o {
        Some(s) => Some(s@),
        None => None,
    }
}

/// A record as mathematical values.
pub struct RecordView {
    pub path: Seq<char>,
    pub file_type: FileKind,
    pub size: u64,
    pub mode: u32,
    pub uid: u32,
    pub gid: u32,
    pub mtime: i64,
    pub inode: Option<u64>,
    pub blake3: Option<Seq<char>>,
    pub sha256: Option<Seq<char>>,
}

impl View for FileRecord {
    type V = RecordView;

    open spec fn view(&self) -> RecordView {
        RecordView {
            path: self.path@,
            file_type: self.file_type,
            size: self.size,
            mode: self.mode,
            uid: self.uid,
            gid: self.gid,
            mtime: self.mtime,
            inode: self.inode,
            blake3: opt_view(self.blake3),
            sha256: opt_view(self.sha256),
        }
    }
}

/// Digests are held by regular files only.
pub open spec fn digests_well_placed(r: RecordView) -> bool {
    r.file_type != FileKind::File ==> r.blake3.is_none() && r.sha256.is_none()
}

/// The outcome of one check run.
#[derive(Clone, Debug)]
pub struct Report {
    pub ts: String,
    pub host: String,
    pub added: Vec<String>,
    pub removed: Vec<String>,
    pub modified: Vec<String>,
    pub errors: Vec<String>,
}

} // verus!
