use vstd::prelude::*;
use crate::baseline::Baseline;
use crate::record::{FileKind, FileRecord, RecordView, opt_view};

verus! {

/// What one worker made of one discovered path.
pub enum Observation {
    /// The path's record was captured.
    Captured(FileRecord),
    /// Capture failed; the diagnostic names the path.
    Failed(String),
}

/// Whether `new` differs from `old` under the comparison key of `new`'s kind:
/// kind, digest, size, mode and modify-time for a regular file; kind and mode otherwise.
pub open spec fn key_differs(old: RecordView, new: RecordView) -> bool {
    match new.file_type {
        FileKind::File => old.file_type != new.file_type || old.blake3 != new.blake3 || old.size
            != new.size || old.mode != new.mode || old.mtime != new.mtime,
        _ => old.file_type != new.file_type || old.mode != new.mode,
    }
}

/// Paths among `obs` that the baseline lacks, in order.
pub open spec fn added_of(b: Baseline, obs: Seq<Observation>) -> Seq<Seq<char>>
    decreases obs.len(),
{
    if obs.len() == 0 {
        seq![]
    } else {
        let prev = added_of(b, obs.drop_last());
        match obs.last() {
            Observation::Captured(r) => if b.lookup(r.path@).is_none() {
                prev.push(r.path@)
            } else {
                prev
            },
            Observation::Failed(_) => prev,
        }
    }
}

/// Paths among `obs` whose record differs from the baseline's, in order.
pub open spec fn modified_of(b: Baseline, obs: Seq<Observation>) -> Seq<Seq<char>>
    decreases obs.len(),
{
    if obs.len() == 0 {
        seq![]
    } else {
        let prev = modified_of(b, obs.drop_last());
        match obs.last() {
            Observation::Captured(r) => match b.lookup(r.path@) {
                Some(old) => if key_differs(old, r@) {
                    prev.push(r.path@)
                } else {
                    prev
                },
                None => prev,
            },
            Observation::Failed(_) => prev,
        }
    }
}

/// Whether `r` is a regular file whose primary digest could not be computed.
pub open spec fn digest_missing(r: RecordView) -> bool {
    r.file_type == FileKind::File && r.blake3.is_none()
}

/// The diagnostic for a regular file that could not be read.
pub open spec fn digest_error(p: Seq<char>) -> Seq<char> {
    "digest error: "@ + p
}

/// The diagnostics among `obs`, in order: each failed capture, and each captured
/// regular file whose primary digest is absent.
pub open spec fn errors_of(obs: Seq<Observation>) -> Seq<Seq<char>>
    decreases obs.len(),
{
    if obs.len() == 0 {
        seq![]
    } else {
        let prev = errors_of(obs.drop_last());
        match obs.last() {
            Observation::Captured(r) => if digest_missing(r@) {
                prev.push(digest_error(r.path@))
            } else {
                prev
            },
            Observation::Failed(m) => prev.push(m@),
        }
    }
}

/// Whether a record for path `p` was captured in `obs`.
pub open spec fn captured(obs: Seq<Observation>, p: Seq<char>) -> bool {
    exists|i: int|
        0 <= i < obs.len() && (#[trigger] obs[i] matches Observation::Captured(r) && r.path@ == p)
}

/// Baseline paths, in baseline order, with no record captured in `obs`.
pub open spec fn removed_of(b: Baseline, obs: Seq<Observation>) -> Seq<Seq<char>> {
    b.entries().filter_map(
        |e: RecordView|
            if captured(obs, e.path) {
                None
            } else {
                Some(e.path)
            },
    )
}

/// The views of a sequence of strings.
pub open spec fn strings(v: Seq<String>) -> Seq<Seq<char>> {
    v.map_values(|s: String| s@)
}

/// What one worker accumulates over its share of the paths.
pub struct Partial {
    pub added: Vec<String>,
    pub modified: Vec<String>,
    pub errors: Vec<String>,
    /// One flag per baseline entry: whether its path was captured.
    pub seen: Vec<bool>,
}

impl Partial {
    /// This partial result is exactly what classifying `obs` against `b` gives.
    pub open spec fn describes(&self, b: Baseline, obs: Seq<Observation>) -> bool {
        &&& strings(self.added@) == added_of(b, obs)
        &&& strings(self.modified@) == modified_of(b, obs)
        &&& strings(self.errors@) == errors_of(obs)
        &&& self.seen@.len() == b.entries().len()
        &&& forall|i: int|
            0 <= i < b.entries().len() ==> self.seen@[i] == captured(obs, b.entries()[i].path)
    }
}

impl Partial {
    /// Classifies one worker's share of the observations against the baseline.
    pub fn classify(b: &Baseline, obs: &Vec<Observation>) -> (r: Partial)
        requires
            b.wf(),
        ensures
            r.describes(*b, obs@),
    {
        let mut added: Vec<String> = Vec::new();
        let mut modified: Vec<String> = Vec::new();
        let mut errors: Vec<String> = Vec::new();
        let mut seen: Vec<bool> = Vec::new();
        let n = b.len();
        let mut k: usize = 0;
        while k < n
            invariant
                k <= n,
                n == b.entries().len(),
                seen@.len() == k,
                forall|j: int| 0 <= j < k ==> !seen@[j],
            decreases n - k,
        {
            seen.push(false);
            k = k + 1;
        }
        proof {
            b.lemma_unique();
            assert forall|q: Seq<char>| !captured(obs@.take(0), q) by {}
            assert(strings(added@) =~= added_of(*b, obs@.take(0)));
            assert(strings(modified@) =~= modified_of(*b, obs@.take(0)));
            assert(strings(errors@) =~= errors_of(obs@.take(0)));
        }
        let mut i: usize = 0;
        while i < obs.len()
            invariant
                b.wf(),
                crate::baseline::unique_paths(b.entries()),
                i <= obs.len(),
                (Partial { added, modified, errors, seen }).describes(*b, obs@.take(i as int)),
            decreases obs.len() - i,
        {
            let ghost prior = obs@.take(i as int);
            proof {
                assert(obs@.take(i + 1).drop_last() == prior);
                assert(obs@.take(i + 1).last() == obs@[i as int]);
            }
            match &obs[i] {
                Observation::Captured(rec) => {
                    if rec.file_type == FileKind::File && rec.blake3.is_none() {
                        let mut msg = String::from_str("digest error: ");
                        msg.append(rec.path.as_str());
                        errors.push(msg);
                    }
                    match b.position(&rec.path) {
                        Some(j) => {
                            proof {
                                b.lemma_lookup_entry(j as int);
                            }
                            if is_modified(b.entry(j), rec) {
                                modified.push(rec.path.clone());
                            }
                            seen.set(j, true);
                        },
                        None => {
                            added.push(rec.path.clone());
                        },
                    }
                },
                Observation::Failed(msg) => {
                    errors.push(msg.clone());
                },
            }
            proof {
                let now = obs@.take(i + 1);
                assert(strings(added@) == added_of(*b, now));
                assert(strings(modified@) == modified_of(*b, now));
                assert(strings(errors@) == errors_of(now));
                assert forall|q: Seq<char>| #[trigger] captured(now, q) == (captured(prior, q) || (
                obs@[i as int] matches Observation::Captured(r) && r.path@ == q)) by {
                    if captured(prior, q) {
                        let w = choose|w: int|
                            0 <= w < prior.len() && (#[trigger] prior[w] matches Observation::Captured(
                                r,
                            ) && r.path@ == q);
                        assert(now[w] == prior[w]);
                    }
                    if obs@[i as int] matches Observation::Captured(r) && r.path@ == q {
                        assert(now[i as int] == obs@[i as int]);
                    }
                    if captured(now, q) {
                        let w = choose|w: int|
                            0 <= w < now.len() && (#[trigger] now[w] matches Observation::Captured(
                                r,
                            ) && r.path@ == q);
                        if w < i {
                            assert(prior[w] == now[w]);
                        }
                    }
                }
            }
            proof {
                let now = obs@.take(i + 1);
                assert forall|k: int| 0 <= k < b.entries().len() implies seen@[k] == captured(
                    now,
                    b.entries()[k].path,
                ) by {
                    assert(captured(now, b.entries()[k].path) == (captured(prior, b.entries()[k].path)
                        || (obs@[i as int] matches Observation::Captured(r) && r.path@
                        == b.entries()[k].path)));
                }
            }
            i = i + 1;
        }
        proof {
            assert(obs@.take(obs@.len() as int) == obs@);
        }
        Partial { added, modified, errors, seen }
    }
}

/// Baseline paths, in baseline order, whose flag in `seen` is unset.
pub open spec fn unseen_paths(e: Seq<RecordView>, seen: Seq<bool>) -> Seq<Seq<char>>
    decreases e.len(),
{
    if e.len() == 0 || seen.len() != e.len() {
        seq![]
    } else {
        let prev = unseen_paths(e.drop_last(), seen.drop_last());
        if seen.last() {
            prev
        } else {
            prev.push(e.last().path)
        }
    }
}

/// With flags that record exactly which entries were captured, the unflagged
/// paths are the removed ones.
pub proof fn lemma_unseen_is_removed(e: Seq<RecordView>, seen: Seq<bool>, obs: Seq<Observation>)
    requires
        seen.len() == e.len(),
        forall|i: int| 0 <= i < e.len() ==> seen[i] == captured(obs, e[i].path),
    ensures
        unseen_paths(e, seen) == e.filter_map(
            |x: RecordView|
                if captured(obs, x.path) {
                    None
                } else {
                    Some(x.path)
                },
        ),
    decreases e.len(),
{
    if e.len() > 0 {
        lemma_unseen_is_removed(e.drop_last(), seen.drop_last(), obs);
    }
}

impl Partial {
    /// Joins the results of two workers: the lists concatenated, the flags or-ed.
    pub fn merge(self, other: Partial) -> (r: Partial)
        requires
            self.seen@.len() == other.seen@.len(),
        ensures
            r.added@ == self.added@ + other.added@,
            r.modified@ == self.modified@ + other.modified@,
            r.errors@ == self.errors@ + other.errors@,
            r.seen@.len() == self.seen@.len(),
            forall|i: int| 0 <= i < r.seen@.len() ==> r.seen@[i] == (self.seen@[i] || other.seen@[i]),
    {
        let mut a = self;
        let mut o = other;
        a.added.append(&mut o.added);
        a.modified.append(&mut o.modified);
        a.errors.append(&mut o.errors);
        let mut i: usize = 0;
        while i < a.seen.len()
            invariant
                a.seen@.len() == o.seen@.len(),
                a.seen@.len() == self.seen@.len(),
                i <= a.seen@.len(),
                a.added@ == self.added@ + other.added@,
                a.modified@ == self.modified@ + other.modified@,
                a.errors@ == self.errors@ + other.errors@,
                o.seen@ == other.seen@,
                forall|j: int| 0 <= j < i ==> a.seen@[j] == (self.seen@[j] || other.seen@[j]),
                forall|j: int| i <= j < a.seen@.len() ==> a.seen@[j] == self.seen@[j],
            decreases a.seen@.len() - i,
        {
            if o.seen[i] {
                a.seen.set(i, true);
            }
            i = i + 1;
        }
        a
    }

    /// Completes classification: the baseline paths never captured are the removed ones.
    pub fn finish(self, b: &Baseline) -> (r: Diff)
        requires
            self.seen@.len() == b.entries().len(),
        ensures
            r.added@ == self.added@,
            r.modified@ == self.modified@,
            r.errors@ == self.errors@,
            strings(r.removed@) == unseen_paths(b.entries(), self.seen@),
            forall|obs: Seq<Observation>| #[trigger] self.describes(*b, obs) ==> r.describes(*b, obs),
    {
        let mut removed: Vec<String> = Vec::new();
        let mut k: usize = 0;
        let n = b.len();
        while k < n
            invariant
                n == b.entries().len(),
                self.seen@.len() == n,
                k <= n,
                strings(removed@) == unseen_paths(
                    b.entries().take(k as int),
                    self.seen@.take(k as int),
                ),
            decreases n - k,
        {
            proof {
                assert(b.entries().take(k + 1).drop_last() == b.entries().take(k as int));
                assert(self.seen@.take(k + 1).drop_last() == self.seen@.take(k as int));
            }
            if !self.seen[k] {
                removed.push(b.entry(k).path.clone());
            }
            k = k + 1;
        }
        proof {
            assert(b.entries().take(n as int) == b.entries());
            assert(self.seen@.take(n as int) == self.seen@);
            assert forall|obs: Seq<Observation>| #[trigger] self.describes(*b, obs) implies strings(
                removed@,
            ) == removed_of(*b, obs) by {
                lemma_unseen_is_removed(b.entries(), self.seen@, obs);
            }
        }
        Diff { added: self.added, removed, modified: self.modified, errors: self.errors }
    }
}

/// Classifies every observation of a walk against the baseline.
pub fn diff(b: &Baseline, obs: &Vec<Observation>) -> (r: Diff)
    requires
        b.wf(),
    ensures
        r.describes(*b, obs@),
{
    Partial::classify(b, obs).finish(b)
}

/// The records captured in `obs`, in order.
pub open spec fn records_of(obs: Seq<Observation>) -> Seq<RecordView>
    decreases obs.len(),
{
    if obs.len() == 0 {
        seq![]
    } else {
        let prev = records_of(obs.drop_last());
        match obs.last() {
            Observation::Captured(r) => prev.push(r@),
            Observation::Failed(_) => prev,
        }
    }
}

/// The records of a capture-mode walk: paths whose capture failed are dropped.
pub fn captured_records(obs: Vec<Observation>) -> (r: Vec<FileRecord>)
    ensures
        r@.map_values(|x: FileRecord| x@) == records_of(obs@),
{
    let ghost all = obs@;
    let mut obs = obs;
    let mut reversed: Vec<Observation> = Vec::new();
    while obs.len() > 0
        invariant
            obs@ + reversed@.reverse() == all,
        decreases obs.len(),
    {
        let ghost before = obs@;
        let ghost rb = reversed@;
        let o = obs.pop().unwrap();
        reversed.push(o);
        proof {
            assert(reversed@.reverse() == seq![o] + rb.reverse());
            assert(before == obs@.push(o));
            assert(obs@ + reversed@.reverse() == before + rb.reverse());
        }
    }
    let mut out: Vec<FileRecord> = Vec::new();
    while reversed.len() > 0
        invariant
            all == all.take(all.len() - reversed@.len()) + reversed@.reverse(),
            reversed@.len() <= all.len(),
            out@.map_values(|x: FileRecord| x@) == records_of(all.take(all.len() - reversed@.len())),
        decreases reversed.len(),
    {
        let ghost done = all.take(all.len() - reversed@.len());
        let ghost rb = reversed@;
        let o = reversed.pop().unwrap();
        proof {
            assert(rb.reverse() == seq![o] + reversed@.reverse());
            assert(all.take(all.len() - reversed@.len()) == done.push(o)) by {
                assert(all == done + rb.reverse());
                assert(all.take(all.len() - reversed@.len()) =~= done.push(o));
            }
            assert(all.take(all.len() - reversed@.len()).drop_last() == done);
            assert(all == all.take(all.len() - reversed@.len()) + reversed@.reverse());
        }
        match o {
            Observation::Captured(rec) => {
                out.push(rec);
            },
            Observation::Failed(_) => {},
        }
    }
    proof {
        assert(all.take(all.len() as int) == all);
    }
    out
}

/// The four classification lists of a check run.
pub struct Diff {
    pub added: Vec<String>,
    pub removed: Vec<String>,
    pub modified: Vec<String>,
    pub errors: Vec<String>,
}

impl Diff {
    /// This result is exactly what classifying `obs` against `b` gives.
    pub open spec fn describes(&self, b: Baseline, obs: Seq<Observation>) -> bool {
        &&& strings(self.added@) == added_of(b, obs)
        &&& strings(self.removed@) == removed_of(b, obs)
        &&& strings(self.modified@) == modified_of(b, obs)
        &&& strings(self.errors@) == errors_of(obs)
    }
}

fn same_digest(a: &Option<String>, b: &Option<String>) -> (r: bool)
    ensures
        r == (opt_view(*a) == opt_view(*b)),
{
    match (a, b) {
        (Some(x), Some(y)) => *x == *y,
        (None, None) => true,
        _ => false,
    }
}

/// Whether `new` counts as a modification of `old`.
pub fn is_modified(old: &FileRecord, new: &FileRecord) -> (r: bool)
    ensures
        r == key_differs(old@, new@),
{
    match new.file_type {
        FileKind::File => old.file_type != new.file_type || !same_digest(&old.blake3, &new.blake3)
            || old.size != new.size || old.mode != new.mode || old.mtime != new.mtime,
        _ => old.file_type != new.file_type || old.mode != new.mode,
    }
}

} // verus!
