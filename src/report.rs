use vstd::prelude::*;
use crate::diff::Diff;
use crate::record::Report;

verus! {

/// Wraps the classification lists with the scan's timestamp and host, unchanged.
pub fn assemble_report(ts: String, host: String, d: Diff) -> (r: Report)
    ensures
        r.ts == ts,
        r.host == host,
        r.added@ == d.added@,
        r.removed@ == d.removed@,
        r.modified@ == d.modified@,
        r.errors@ == d.errors@,
{
    Report { ts, host, added: d.added, removed: d.removed, modified: d.modified, errors: d.errors }
}

impl Report {
    /// Whether any path was added, removed or modified.
    pub fn has_changes(&self) -> (r: bool)
        ensures
            r == (self.added@.len() > 0 || self.removed@.len() > 0 || self.modified@.len() > 0),
    {
        self.added.len() > 0 || self.removed.len() > 0 || self.modified.len() > 0
    }
}

} // verus!
