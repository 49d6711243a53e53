//! Revision membership: a revision is exactly its set of (hash, path,
//! revision) rows. Rows are write-once; a committed revision's membership is
//! immutable.

use vstd::prelude::*;

verus! {

/// The mathematical value of a membership row.
pub ghost struct RevisionFileView {
    pub hash: Seq<char>,
    pub path: Seq<char>,
    pub revision: int,
}

/// A stored membership row.
#[derive(Debug, Clone, PartialEq, Eq)]
pub struct RevisionFile {
    pub hash: String,
    pub path: String,
    pub revision: usize,
}

impl View for RevisionFile {
    type V = RevisionFileView;

    open spec fn view(&self) -> RevisionFileView {
        RevisionFileView { hash: self.hash@, path: self.path@, revision: self.revision as int }
    }
}

/// A membership row as handed to the store for insertion.
#[derive(Debug, Clone, PartialEq, Eq)]
pub struct RevisionFileIn {
    pub hash: String,
    pub path: String,
    pub revision: usize,
}

impl View for RevisionFileIn {
    type V = RevisionFileView;

    open spec fn view(&self) -> RevisionFileView {
        RevisionFileView { hash: self.hash@, path: self.path@, revision: self.revision as int }
    }
}

/// The views of a sequence of membership rows.
pub open spec fn member_views(s: Seq<RevisionFile>) -> Seq<RevisionFileView> {
    s.map_values(|x: RevisionFile| x@)
}

/// The greatest revision number among `rows`, if any row exists.
pub open spec fn max_rev_of(rows: Seq<RevisionFileView>) -> Option<int>
    decreases rows.len(),
{
    if rows.len() == 0 {
        None
    } else {
        let r = rows.last().revision;
        match max_rev_of(rows.drop_last()) {
            None => Some(r),
            Some(m) => Some(
                if m >= r {
                    m
                } else {
                    r
                },
            ),
        }
    }
}

/// `max_rev_of` is what its name says: the maximum, attained by some row.
pub proof fn lemma_max_rev_of(rows: Seq<RevisionFileView>)
    ensures
        match max_rev_of(rows) {
            None => rows.len() == 0,
            Some(m) => {
                &&& exists|i: int| 0 <= i < rows.len() && #[trigger] rows[i].revision == m
                &&& forall|i: int| 0 <= i < rows.len() ==> #[trigger] rows[i].revision <= m
            },
        },
    decreases rows.len(),
{
    if rows.len() > 0 {
        lemma_max_rev_of(rows.drop_last());
        let m = max_rev_of(rows)->0;
        if rows.last().revision == m {
            assert(rows[rows.len() - 1].revision == m);
        } else {
            let j = choose|i: int|
                0 <= i < rows.drop_last().len() && #[trigger] rows.drop_last()[i].revision == m;
            assert(rows[j].revision == m);
        }
        assert forall|i: int| 0 <= i < rows.len() implies #[trigger] rows[i].revision <= m by {
            if i < rows.len() - 1 {
                assert(rows.drop_last()[i].revision <= max_rev_of(rows.drop_last())->0);
            }
        }
    }
}

} // verus!
