use vstd::prelude::*;
use crate::baseline::Baseline;
use crate::diff::{
    Observation, Partial, added_of, captured, digest_error, digest_missing, errors_of, key_differs,
    lemma_unseen_is_removed,
    modified_of, removed_of, strings, unseen_paths,
};
use crate::record::{FileKind, FileRecord, RecordView};

verus! {

/// Classification distributes over a split of the observations: each list of the
/// whole is the list of the first part followed by that of the second, and a path
/// is captured in the whole exactly when it is captured in either part.
pub proof fn lemma_split_classification(b: Baseline, o1: Seq<Observation>, o2: Seq<Observation>)
    ensures
        added_of(b, o1 + o2) == added_of(b, o1) + added_of(b, o2),
        modified_of(b, o1 + o2) == modified_of(b, o1) + modified_of(b, o2),
        errors_of(o1 + o2) == errors_of(o1) + errors_of(o2),
        forall|p: Seq<char>| #[trigger] captured(o1 + o2, p) == (captured(o1, p) || captured(o2, p)),
    decreases o2.len(),
{
    if o2.len() == 0 {
        assert(o1 + o2 == o1);
        assert(added_of(b, o1) + added_of(b, o2) == added_of(b, o1));
        assert(modified_of(b, o1) + modified_of(b, o2) == modified_of(b, o1));
        assert(errors_of(o1) + errors_of(o2) == errors_of(o1));
        assert forall|p: Seq<char>| #[trigger] captured(o1 + o2, p) == (captured(o1, p) || captured(o2, p)) by {}
    } else {
        let w = o1 + o2;
        assert(w.drop_last() == o1 + o2.drop_last());
        assert(w.last() == o2.last());
        lemma_split_classification(b, o1, o2.drop_last());
        assert(added_of(b, w) == added_of(b, o1) + added_of(b, o2));
        assert(modified_of(b, w) == modified_of(b, o1) + modified_of(b, o2));
        assert(errors_of(w) == errors_of(o1) + errors_of(o2));
        assert forall|p: Seq<char>| #[trigger] captured(w, p) == (captured(o1, p) || captured(o2, p)) by {
            if captured(w, p) {
                let i = choose|i: int| 0 <= i < w.len() && (#[trigger] w[i] matches Observation::Captured(r) && r.path@ == p);
                if i < o1.len() {
                    assert(o1[i] == w[i]);
                } else {
                    assert(o2[i - o1.len()] == w[i]);
                }
            }
            if captured(o1, p) {
                let i = choose|i: int| 0 <= i < o1.len() && (#[trigger] o1[i] matches Observation::Captured(r) && r.path@ == p);
                assert(w[i] == o1[i]);
            }
            if captured(o2, p) {
                let i = choose|i: int| 0 <= i < o2.len() && (#[trigger] o2[i] matches Observation::Captured(r) && r.path@ == p);
                assert(w[i + o1.len()] == o2[i]);
            }
        }
    }
}

/// Workers that classify consecutive shares of the observations and whose partial
/// results are merged produce exactly what one worker classifying all of them does.
pub proof fn lemma_merged_workers(
    b: Baseline,
    p1: Partial,
    p2: Partial,
    m: Partial,
    o1: Seq<Observation>,
    o2: Seq<Observation>,
)
    requires
        p1.describes(b, o1),
        p2.describes(b, o2),
        m.added@ == p1.added@ + p2.added@,
        m.modified@ == p1.modified@ + p2.modified@,
        m.errors@ == p1.errors@ + p2.errors@,
        m.seen@.len() == p1.seen@.len(),
        forall|i: int| 0 <= i < m.seen@.len() ==> m.seen@[i] == (p1.seen@[i] || p2.seen@[i]),
    ensures
        m.describes(b, o1 + o2),
{
    lemma_split_classification(b, o1, o2);
    assert(strings(m.added@) == strings(p1.added@) + strings(p2.added@));
    assert(strings(m.modified@) == strings(p1.modified@) + strings(p2.modified@));
    assert(strings(m.errors@) == strings(p1.errors@) + strings(p2.errors@));
    assert forall|i: int| 0 <= i < b.entries().len() implies m.seen@[i] == captured(o1 + o2, b.entries()[i].path) by {
        let q = b.entries()[i].path;
        assert(captured(o1 + o2, q) == (captured(o1, q) || captured(o2, q)));
    }
}

/// Every observation is a captured record equal to the baseline's record for its path.
pub open spec fn all_unchanged(b: Baseline, obs: Seq<Observation>) -> bool {
    forall|i: int|
        0 <= i < obs.len() ==> (#[trigger] obs[i] matches Observation::Captured(r) && b.lookup(r.path@)
            == Some(r@))
}

/// Every baseline path was captured.
pub open spec fn covers(b: Baseline, obs: Seq<Observation>) -> bool {
    forall|k: int| 0 <= k < b.entries().len() ==> captured(obs, #[trigger] b.entries()[k].path)
}

proof fn lemma_unchanged_lists(b: Baseline, obs: Seq<Observation>)
    requires
        all_unchanged(b, obs),
    ensures
        added_of(b, obs) == Seq::<Seq<char>>::empty(),
        modified_of(b, obs) == Seq::<Seq<char>>::empty(),
    decreases obs.len(),
{
    if obs.len() > 0 {
        let d = obs.drop_last();
        assert forall|i: int| 0 <= i < d.len() implies (#[trigger] d[i] matches Observation::Captured(r)
            && b.lookup(r.path@) == Some(r@)) by {
            assert(d[i] == obs[i]);
        }
        lemma_unchanged_lists(b, d);
        assert(obs.last() == obs[obs.len() - 1]);
    }
}

proof fn lemma_unseen_all_seen(e: Seq<RecordView>, seen: Seq<bool>)
    requires
        seen.len() == e.len(),
        forall|i: int| 0 <= i < seen.len() ==> seen[i],
    ensures
        unseen_paths(e, seen) == Seq::<Seq<char>>::empty(),
    decreases e.len(),
{
    if e.len() > 0 {
        lemma_unseen_all_seen(e.drop_last(), seen.drop_last());
    }
}

proof fn lemma_covered_none_removed(b: Baseline, obs: Seq<Observation>)
    requires
        covers(b, obs),
    ensures
        removed_of(b, obs) == Seq::<Seq<char>>::empty(),
{
    let e = b.entries();
    let seen = Seq::new(e.len(), |i: int| captured(obs, e[i].path));
    lemma_unseen_is_removed(e, seen, obs);
    lemma_unseen_all_seen(e, seen);
}

/// A walk that captures every baseline path, each with the record the baseline
/// holds for it, reports nothing added, removed or modified.
pub proof fn lemma_unchanged_tree(b: Baseline, obs: Seq<Observation>)
    requires
        all_unchanged(b, obs),
        covers(b, obs),
    ensures
        added_of(b, obs) == Seq::<Seq<char>>::empty(),
        removed_of(b, obs) == Seq::<Seq<char>>::empty(),
        modified_of(b, obs) == Seq::<Seq<char>>::empty(),
{
    lemma_unchanged_lists(b, obs);
    lemma_covered_none_removed(b, obs);
}

proof fn lemma_single(b: Baseline, r: FileRecord)
    ensures
        added_of(b, seq![Observation::Captured(r)]) == if b.lookup(r.path@).is_none() {
            seq![r.path@]
        } else {
            Seq::<Seq<char>>::empty()
        },
        modified_of(b, seq![Observation::Captured(r)]) == match b.lookup(r.path@) {
            Some(old) => if key_differs(old, r@) {
                seq![r.path@]
            } else {
                Seq::<Seq<char>>::empty()
            },
            None => Seq::<Seq<char>>::empty(),
        },
{
    let c = seq![Observation::Captured(r)];
    assert(c.drop_last().len() == 0);
    assert(c.last() == Observation::Captured(r));
    assert(added_of(b, c.drop_last()) == Seq::<Seq<char>>::empty());
    assert(modified_of(b, c.drop_last()) == Seq::<Seq<char>>::empty());
    assert(Seq::<Seq<char>>::empty().push(r.path@) == seq![r.path@]);
}

/// The lists of `pre`, one captured record `r`, then `post`, where `pre` and `post` match the baseline.
proof fn lemma_one_change(b: Baseline, pre: Seq<Observation>, post: Seq<Observation>, r: FileRecord)
    requires
        all_unchanged(b, pre),
        all_unchanged(b, post),
    ensures
        added_of(b, pre + seq![Observation::Captured(r)] + post) == added_of(b, seq![Observation::Captured(r)]),
        modified_of(b, pre + seq![Observation::Captured(r)] + post) == modified_of(b, seq![Observation::Captured(r)]),
{
    let c = seq![Observation::Captured(r)];
    lemma_unchanged_lists(b, pre);
    lemma_unchanged_lists(b, post);
    lemma_split_classification(b, pre, c);
    lemma_split_classification(b, pre + c, post);
    assert(Seq::<Seq<char>>::empty() + added_of(b, c) == added_of(b, c));
    assert(added_of(b, c) + Seq::<Seq<char>>::empty() == added_of(b, c));
    assert(Seq::<Seq<char>>::empty() + modified_of(b, c) == modified_of(b, c));
    assert(modified_of(b, c) + Seq::<Seq<char>>::empty() == modified_of(b, c));
    lemma_single(b, r);
}

/// Where the walk differs from the baseline by one new path `r` alone, that path
/// is added, and nothing is removed or modified.
pub proof fn lemma_single_addition(b: Baseline, pre: Seq<Observation>, post: Seq<Observation>, r: FileRecord)
    requires
        all_unchanged(b, pre),
        all_unchanged(b, post),
        b.lookup(r.path@).is_none(),
        covers(b, pre + seq![Observation::Captured(r)] + post),
    ensures
        added_of(b, pre + seq![Observation::Captured(r)] + post) == seq![r.path@],
        removed_of(b, pre + seq![Observation::Captured(r)] + post) == Seq::<Seq<char>>::empty(),
        modified_of(b, pre + seq![Observation::Captured(r)] + post) == Seq::<Seq<char>>::empty(),
{
    lemma_one_change(b, pre, post, r);
    lemma_covered_none_removed(b, pre + seq![Observation::Captured(r)] + post);
    lemma_single(b, r);
}

/// Where a regular file's digest alone differs from the baseline's record, the
/// file is modified, and nothing is added or removed.
pub proof fn lemma_content_change(
    b: Baseline,
    pre: Seq<Observation>,
    post: Seq<Observation>,
    r: FileRecord,
    old: RecordView,
)
    requires
        all_unchanged(b, pre),
        all_unchanged(b, post),
        b.lookup(r.path@) == Some(old),
        r.file_type == FileKind::File,
        old.blake3 != r@.blake3,
        old.size == r.size,
        old.mode == r.mode,
        old.mtime == r.mtime,
        covers(b, pre + seq![Observation::Captured(r)] + post),
    ensures
        modified_of(b, pre + seq![Observation::Captured(r)] + post) == seq![r.path@],
        added_of(b, pre + seq![Observation::Captured(r)] + post) == Seq::<Seq<char>>::empty(),
        removed_of(b, pre + seq![Observation::Captured(r)] + post) == Seq::<Seq<char>>::empty(),
{
    lemma_one_change(b, pre, post, r);
    lemma_covered_none_removed(b, pre + seq![Observation::Captured(r)] + post);
    lemma_single(b, r);
    assert(key_differs(old, r@));
}

proof fn lemma_listed_paths_captured(b: Baseline, obs: Seq<Observation>, x: Seq<char>)
    requires
        added_of(b, obs).contains(x) || modified_of(b, obs).contains(x),
    ensures
        captured(obs, x),
    decreases obs.len(),
{
    let d = obs.drop_last();
    if obs.len() > 0 {
        if added_of(b, d).contains(x) || modified_of(b, d).contains(x) {
            lemma_listed_paths_captured(b, d, x);
            let i = choose|i: int| 0 <= i < d.len() && (#[trigger] d[i] matches Observation::Captured(r) && r.path@ == x);
            assert(obs[i] == d[i]);
        } else {
            assert(obs[obs.len() - 1] == obs.last());
        }
    }
}

proof fn lemma_unseen_contains(e: Seq<RecordView>, seen: Seq<bool>, k: int)
    requires
        seen.len() == e.len(),
        0 <= k < e.len(),
        !seen[k],
    ensures
        unseen_paths(e, seen).contains(e[k].path),
    decreases e.len(),
{
    let u = unseen_paths(e, seen);
    if k == e.len() - 1 {
        assert(u.last() == e[k].path);
        assert(u[u.len() - 1] == e[k].path);
    } else {
        lemma_unseen_contains(e.drop_last(), seen.drop_last(), k);
        let prev = unseen_paths(e.drop_last(), seen.drop_last());
        let j = choose|j: int| 0 <= j < prev.len() && prev[j] == e[k].path;
        assert(u[j] == prev[j]);
    }
}

/// A baseline path that the walk never captured is removed, and neither added
/// nor modified.
pub proof fn lemma_deletion(b: Baseline, obs: Seq<Observation>, k: int)
    requires
        0 <= k < b.entries().len(),
        !captured(obs, b.entries()[k].path),
    ensures
        removed_of(b, obs).contains(b.entries()[k].path),
        !added_of(b, obs).contains(b.entries()[k].path),
        !modified_of(b, obs).contains(b.entries()[k].path),
{
    let e = b.entries();
    let seen = Seq::new(e.len(), |i: int| captured(obs, e[i].path));
    lemma_unseen_is_removed(e, seen, obs);
    lemma_unseen_contains(e, seen, k);
    if added_of(b, obs).contains(e[k].path) || modified_of(b, obs).contains(e[k].path) {
        lemma_listed_paths_captured(b, obs, e[k].path);
    }
}

/// A directory whose kind and mode are unchanged is not modified, whatever became
/// of its modify-time or size.
pub proof fn lemma_directory_churn(b: Baseline, obs: Seq<Observation>, r: FileRecord, old: RecordView)
    requires
        b.lookup(r.path@) == Some(old),
        old.file_type == FileKind::Dir,
        r.file_type == FileKind::Dir,
        old.mode == r.mode,
    ensures
        !key_differs(old, r@),
        modified_of(b, obs.push(Observation::Captured(r))) == modified_of(b, obs),
        added_of(b, obs.push(Observation::Captured(r))) == added_of(b, obs),
{
    assert(obs.push(Observation::Captured(r)).drop_last() == obs);
}

/// An entry whose kind changed is modified, whatever its kind now is.
pub proof fn lemma_kind_change(b: Baseline, obs: Seq<Observation>, r: FileRecord, old: RecordView)
    requires
        b.lookup(r.path@) == Some(old),
        old.file_type != r.file_type,
    ensures
        key_differs(old, r@),
        modified_of(b, obs.push(Observation::Captured(r))) == modified_of(b, obs).push(r.path@),
{
    assert(obs.push(Observation::Captured(r)).drop_last() == obs);
}

/// A captured regular file whose content could not be digested is reported
/// among the errors, by path.
pub proof fn lemma_unreadable_file_reported(obs: Seq<Observation>, r: FileRecord)
    requires
        r.file_type == FileKind::File,
        r.blake3.is_none(),
    ensures
        digest_missing(r@),
        errors_of(obs.push(Observation::Captured(r))) == errors_of(obs).push(digest_error(r.path@)),
{
    assert(obs.push(Observation::Captured(r)).drop_last() == obs);
}

/// The lists of each worker's share, in share order.
pub open spec fn shares_added(b: Baseline, shares: Seq<Seq<Observation>>) -> Seq<Seq<char>> {
    shares.map_values(|o: Seq<Observation>| added_of(b, o)).flatten()
}

/// The modified lists of each worker's share, in share order.
pub open spec fn shares_modified(b: Baseline, shares: Seq<Seq<Observation>>) -> Seq<Seq<char>> {
    shares.map_values(|o: Seq<Observation>| modified_of(b, o)).flatten()
}

/// The diagnostics of each worker's share, in share order.
pub open spec fn shares_errors(shares: Seq<Seq<Observation>>) -> Seq<Seq<char>> {
    shares.map_values(|o: Seq<Observation>| errors_of(o)).flatten()
}

/// Any number of workers, each classifying one consecutive share of the walk,
/// together list exactly what one worker classifying the whole walk lists, and a
/// path is captured in the walk exactly when some share captured it.
pub proof fn lemma_n_workers(b: Baseline, shares: Seq<Seq<Observation>>)
    ensures
        added_of(b, shares.flatten()) == shares_added(b, shares),
        modified_of(b, shares.flatten()) == shares_modified(b, shares),
        errors_of(shares.flatten()) == shares_errors(shares),
        forall|p: Seq<char>|
            #[trigger] captured(shares.flatten(), p) <==> exists|i: int|
                0 <= i < shares.len() && captured(#[trigger] shares[i], p),
    decreases shares.len(),
{
    if shares.len() == 0 {
        assert(added_of(b, shares.flatten()) =~= Seq::<Seq<char>>::empty());
        assert(modified_of(b, shares.flatten()) =~= Seq::<Seq<char>>::empty());
        assert(errors_of(shares.flatten()) =~= Seq::<Seq<char>>::empty());
        assert forall|p: Seq<char>| !captured(shares.flatten(), p) by {}
    } else {
        let rest = shares.drop_first();
        lemma_n_workers(b, rest);
        lemma_split_classification(b, shares.first(), rest.flatten());
        assert(shares.map_values(|o: Seq<Observation>| added_of(b, o)).drop_first()
            =~= rest.map_values(|o: Seq<Observation>| added_of(b, o)));
        assert(shares.map_values(|o: Seq<Observation>| modified_of(b, o)).drop_first()
            =~= rest.map_values(|o: Seq<Observation>| modified_of(b, o)));
        assert(shares.map_values(|o: Seq<Observation>| errors_of(o)).drop_first()
            =~= rest.map_values(|o: Seq<Observation>| errors_of(o)));
        assert forall|p: Seq<char>|
            #[trigger] captured(shares.flatten(), p) <==> exists|i: int|
                0 <= i < shares.len() && captured(#[trigger] shares[i], p) by {
            if captured(rest.flatten(), p) {
                let i = choose|i: int| 0 <= i < rest.len() && captured(#[trigger] rest[i], p);
                assert(shares[i + 1] == rest[i]);
            }
            if exists|i: int| 0 <= i < shares.len() && captured(#[trigger] shares[i], p) {
                let i = choose|i: int| 0 <= i < shares.len() && captured(#[trigger] shares[i], p);
                if i > 0 {
                    assert(rest[i - 1] == shares[i]);
                }
            }
        }
    }
}

} // verus!
