use bananapeel_tw::baseline::{path_hash, Baseline};
use bananapeel_tw::capture::{to_record, StatInfo};
use bananapeel_tw::diff::{captured_records, diff, is_modified, Observation, Partial};
use bananapeel_tw::hashing::{digest_bytes, Blake3Stream};
use bananapeel_tw::record::{FileKind, FileRecord, Report};
use bananapeel_tw::report::assemble_report;

fn file(path: &str, digest: &str, size: u64, mode: u32, mtime: i64) -> FileRecord {
    FileRecord {
        path: path.to_string(),
        file_type: FileKind::File,
        size,
        mode,
        uid: 1000,
        gid: 1000,
        mtime,
        inode: Some(7),
        blake3: Some(digest.to_string()),
        sha256: None,
    }
}

fn dir(path: &str, mode: u32, mtime: i64) -> FileRecord {
    FileRecord {
        path: path.to_string(),
        file_type: FileKind::Dir,
        size: 4096,
        mode,
        uid: 0,
        gid: 0,
        mtime,
        inode: Some(2),
        blake3: None,
        sha256: None,
    }
}

fn tree() -> Vec<FileRecord> {
    vec![
        dir("/r", 0o40755, 100),
        file("/r/a", "aaaa", 3, 0o100644, 100),
        file("/r/b", "bbbb", 5, 0o100600, 200),
    ]
}

fn observe(recs: Vec<FileRecord>) -> Vec<Observation> {
    recs.into_iter().map(Observation::Captured).collect()
}

fn sorted(v: &[String]) -> Vec<String> {
    let mut v = v.to_vec();
    v.sort();
    v
}

#[test]
fn kind_names_round_trip() {
    for k in [FileKind::File, FileKind::Dir, FileKind::Symlink, FileKind::Special] {
        assert_eq!(FileKind::from_name(&k.name()), Some(k));
    }
    assert_eq!(FileKind::File.name(), "file");
    assert_eq!(FileKind::Dir.name(), "dir");
    assert_eq!(FileKind::Symlink.name(), "symlink");
    assert_eq!(FileKind::Special.name(), "special");
    assert_eq!(FileKind::from_name(&"socket".to_string()), None);
    assert_eq!(FileKind::from_name(&String::new()), None);
}

fn stat(is_file: bool, is_dir: bool, is_symlink: bool) -> StatInfo {
    StatInfo { is_file, is_dir, is_symlink, size: 12, mode: 0o644, uid: 1, gid: 2, mtime: 99, ino: 42 }
}

#[test]
fn record_keeps_digests_for_files_only() {
    let r = to_record("/x".to_string(), &stat(true, false, false), Some("d1".to_string()), Some("d2".to_string()), true);
    assert_eq!(r.file_type, FileKind::File);
    assert_eq!(r.blake3.as_deref(), Some("d1"));
    assert_eq!(r.sha256.as_deref(), Some("d2"));
    assert_eq!(r.inode, Some(42));
    assert_eq!((r.size, r.mode, r.uid, r.gid, r.mtime), (12, 0o644, 1, 2, 99));

    let r = to_record("/x".to_string(), &stat(true, false, false), Some("d1".to_string()), Some("d2".to_string()), false);
    assert_eq!(r.sha256, None);

    let r = to_record("/d".to_string(), &stat(false, true, false), Some("d1".to_string()), None, true);
    assert_eq!(r.file_type, FileKind::Dir);
    assert_eq!(r.blake3, None);
}

#[test]
fn unreadable_file_has_absent_digest() {
    let r = to_record("/x".to_string(), &stat(true, false, false), None, None, true);
    assert_eq!(r.file_type, FileKind::File);
    assert_eq!(r.blake3, None);
    assert_eq!(r.sha256, None);
}

#[test]
fn symlink_is_recorded_as_itself() {
    let st = stat(false, false, true);
    assert!(!st.wants_digest());
    let r = to_record("/r/link".to_string(), &st, None, None, false);
    assert_eq!(r.file_type, FileKind::Symlink);
    assert_eq!(r.path, "/r/link");
    assert_eq!(r.blake3, None);
}

#[test]
fn kind_precedence() {
    assert_eq!(stat(true, true, true).kind(), FileKind::File);
    assert_eq!(stat(false, true, true).kind(), FileKind::Dir);
    assert_eq!(stat(false, false, true).kind(), FileKind::Symlink);
    assert_eq!(stat(false, false, false).kind(), FileKind::Special);
    assert!(stat(true, false, false).wants_digest());
    assert!(!stat(false, true, false).wants_digest());
}

#[test]
fn baseline_last_write_wins() {
    let b = Baseline::from_records(vec![
        file("/r/a", "old", 3, 0o100644, 1),
        dir("/r", 0o40755, 1),
        file("/r/a", "new", 4, 0o100644, 2),
    ]);
    assert_eq!(b.len(), 2);
    let a = b.get(&"/r/a".to_string()).unwrap();
    assert_eq!(a.blake3.as_deref(), Some("new"));
    assert_eq!(a.size, 4);
    assert!(b.get(&"/r/zzz".to_string()).is_none());
}

#[test]
fn baseline_insert_replaces() {
    let mut b = Baseline::new();
    assert_eq!(b.len(), 0);
    b.insert(dir("/r", 0o40755, 1));
    b.insert(dir("/r", 0o40700, 1));
    assert_eq!(b.len(), 1);
    assert_eq!(b.get(&"/r".to_string()).unwrap().mode, 0o40700);
    assert_eq!(b.position(&"/r".to_string()), Some(0));
    assert_eq!(b.entry(0).path, "/r");
}

#[test]
fn unchanged_tree_reports_nothing() {
    let b = Baseline::from_records(tree());
    let d = diff(&b, &observe(tree()));
    assert!(d.added.is_empty());
    assert!(d.removed.is_empty());
    assert!(d.modified.is_empty());
    assert!(d.errors.is_empty());
}

#[test]
fn new_file_is_added_only() {
    let b = Baseline::from_records(tree());
    let mut now = tree();
    now.insert(1, file("/r/new", "cccc", 1, 0o100644, 300));
    let d = diff(&b, &observe(now));
    assert_eq!(d.added, vec!["/r/new".to_string()]);
    assert!(d.removed.is_empty());
    assert!(d.modified.is_empty());
}

#[test]
fn digest_change_alone_is_modification() {
    let b = Baseline::from_records(tree());
    let mut now = tree();
    now[1] = file("/r/a", "AAAA", 3, 0o100644, 100);
    let d = diff(&b, &observe(now));
    assert_eq!(d.modified, vec!["/r/a".to_string()]);
    assert!(d.added.is_empty());
    assert!(d.removed.is_empty());
}

#[test]
fn absent_digest_on_one_side_is_modification() {
    let old = file("/r/a", "aaaa", 3, 0o100644, 100);
    let mut new = old.clone();
    new.blake3 = None;
    assert!(is_modified(&old, &new));
    assert!(is_modified(&new, &old));
    assert!(!is_modified(&old, &old.clone()));
}

#[test]
fn file_size_mode_or_mtime_change_is_modification() {
    let old = file("/r/a", "aaaa", 3, 0o100644, 100);
    assert!(is_modified(&old, &file("/r/a", "aaaa", 4, 0o100644, 100)));
    assert!(is_modified(&old, &file("/r/a", "aaaa", 3, 0o100600, 100)));
    assert!(is_modified(&old, &file("/r/a", "aaaa", 3, 0o100644, 101)));
}

#[test]
fn removed_path_is_only_removed() {
    let b = Baseline::from_records(tree());
    let mut now = tree();
    now.remove(2);
    let d = diff(&b, &observe(now));
    assert_eq!(d.removed, vec!["/r/b".to_string()]);
    assert!(d.added.is_empty());
    assert!(d.modified.is_empty());
}

#[test]
fn directory_mtime_churn_is_not_modification() {
    let b = Baseline::from_records(tree());
    let mut now = tree();
    now[0] = dir("/r", 0o40755, 999);
    now[0].size = 8192;
    let d = diff(&b, &observe(now));
    assert!(d.modified.is_empty());
    let mut now = tree();
    now[0] = dir("/r", 0o40700, 100);
    let d = diff(&b, &observe(now));
    assert_eq!(d.modified, vec!["/r".to_string()]);
}

#[test]
fn kind_change_of_non_file_is_modification() {
    let old = dir("/r/x", 0o755, 1);
    let mut new = old.clone();
    new.file_type = FileKind::Symlink;
    assert!(is_modified(&old, &new));
}

#[test]
fn failed_paths_become_errors() {
    let b = Baseline::from_records(tree());
    let mut now = observe(tree());
    now[2] = Observation::Failed("stat error: /r/b".to_string());
    let d = diff(&b, &now);
    assert_eq!(d.errors, vec!["stat error: /r/b".to_string()]);
    assert_eq!(d.removed, vec!["/r/b".to_string()]);
}

#[test]
fn capture_drops_failed_paths() {
    let mut obs = observe(tree());
    obs.insert(1, Observation::Failed("stat error: /r/gone".to_string()));
    let recs = captured_records(obs);
    let paths: Vec<&str> = recs.iter().map(|r| r.path.as_str()).collect();
    assert_eq!(paths, vec!["/r", "/r/a", "/r/b"]);
}

#[test]
fn workers_merged_match_single_worker() {
    let b = Baseline::from_records(tree());
    let mut now = tree();
    now.remove(0);
    now[0] = file("/r/a", "zzzz", 3, 0o100644, 100);
    now.push(file("/r/c", "cccc", 1, 0o100644, 5));
    let mut obs = observe(now);
    obs.push(Observation::Failed("record error: /r/q".to_string()));
    let whole = diff(&b, &obs);
    for split in 0..=obs.len() {
        let right: Vec<Observation> = obs.split_off(split);
        let p1 = Partial::classify(&b, &obs);
        let p2 = Partial::classify(&b, &right);
        let merged = p1.merge(p2).finish(&b);
        assert_eq!(merged.added, whole.added);
        assert_eq!(merged.modified, whole.modified);
        assert_eq!(merged.errors, whole.errors);
        assert_eq!(sorted(&merged.removed), sorted(&whole.removed));
        obs.extend(right);
    }
    assert_eq!(whole.added, vec!["/r/c".to_string()]);
    assert_eq!(whole.modified, vec!["/r/a".to_string()]);
    assert_eq!(whole.removed, vec!["/r".to_string()]);
    assert_eq!(whole.errors, vec!["record error: /r/q".to_string()]);
}

#[test]
fn blake3_known_digests() {
    assert_eq!(digest_bytes(b""), "af1349b9f5f9a1a6a0404dea36dcc9499bcb25c9adc112b7cc9a93cae41f3262");
    assert_eq!(digest_bytes(b"abc"), "6437b3ac38465133ffb63b75273a8db548c558465d79db03fd359c6cd5bd9d85");
}

#[test]
fn blake3_stream_matches_one_shot() {
    let mut s = Blake3Stream::new();
    s.update(b"a");
    s.update(b"");
    s.update(b"bc");
    assert_eq!(s.hex_digest(), digest_bytes(b"abc"));
    assert_eq!(s.hex_digest().len(), 64);
}

#[test]
fn report_wraps_lists() {
    let b = Baseline::from_records(tree());
    let mut now = tree();
    now.remove(1);
    let d = diff(&b, &observe(now));
    let r: Report = assemble_report("2024-01-01T00:00:00Z".to_string(), "host1".to_string(), d);
    assert_eq!(r.ts, "2024-01-01T00:00:00Z");
    assert_eq!(r.host, "host1");
    assert_eq!(r.removed, vec!["/r/a".to_string()]);
    assert!(r.has_changes());
    let quiet = assemble_report("t".to_string(), "h".to_string(), diff(&b, &observe(tree())));
    assert!(!quiet.has_changes());
}

#[test]
fn path_hash_is_fnv1a() {
    assert_eq!(path_hash(&String::new()), 0xcbf29ce484222325);
    assert_eq!(path_hash(&"a".to_string()), 0xaf63dc4c8601ec8c);
}

#[test]
fn baseline_many_paths() {
    let mut recs = Vec::new();
    for i in 0..500u64 {
        recs.push(file(&format!("/r/f{}", i), "d", i, 0o100644, 1));
    }
    let b = Baseline::from_records(recs);
    assert_eq!(b.len(), 500);
    for i in 0..500u64 {
        assert_eq!(b.get(&format!("/r/f{}", i)).unwrap().size, i);
    }
    assert!(b.get(&"/r/f500".to_string()).is_none());
}

#[test]
fn directory_replaced_by_file_is_modification() {
    let old = FileRecord {
        path: "p".to_string(),
        file_type: FileKind::Dir,
        size: 0,
        mode: 0,
        uid: 0,
        gid: 0,
        mtime: 0,
        inode: None,
        blake3: None,
        sha256: None,
    };
    let mut new = old.clone();
    new.file_type = FileKind::File;
    assert!(is_modified(&old, &new));
    let b = Baseline::from_records(vec![old]);
    let d = diff(&b, &observe(vec![new]));
    assert_eq!(d.modified, vec!["p".to_string()]);
    assert!(d.added.is_empty());
}

#[test]
fn unreadable_file_is_reported_as_error() {
    let b = Baseline::from_records(tree());
    let mut now = tree();
    now[1].blake3 = None;
    let d = diff(&b, &observe(now));
    assert_eq!(d.errors, vec!["digest error: /r/a".to_string()]);
    assert_eq!(d.modified, vec!["/r/a".to_string()]);
    assert!(d.added.is_empty());
    assert!(d.removed.is_empty());
}

#[test]
fn blake3_digest_is_lowercase_hex() {
    let h = digest_bytes(b"tripwire");
    assert_eq!(h.len(), 64);
    assert!(h.chars().all(|c| c.is_ascii_digit() || ('a'..='f').contains(&c)));
}
