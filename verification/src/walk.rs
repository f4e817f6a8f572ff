//! One step of the walk: from a commit and its diff to the lines of its
//! block, with the statistics brought up to date.

use vstd::prelude::*;
use codeowners::Owners;
use crate::commit::changed_files;
use crate::commit::files_of;
use crate::commit::CommitRecord;
use crate::commit::CommitView;
use crate::commit::Delta;
use crate::commit::DeltaView;
use crate::history::History;
use crate::owner::OwnerView;
use crate::owner::Settings;
use crate::report::block;
use crate::report::commit_block;
use crate::ruleset::annotated_all;
use crate::ruleset::assignments;
use crate::ruleset::resolve_files;
use crate::tally::cost;
use crate::tally::weight_of;
use crate::tally::CommitEntry;

verus! {

/// What the walk reports of a commit: its label, and its changed files in
/// ascending order of their paths, each with what the rules say of it.
pub open spec fn entry_of(
    rules: Map<Seq<char>, Seq<OwnerView>>,
    settings: Settings,
    commit: CommitView,
    deltas: Seq<DeltaView>,
) -> CommitEntry {
    CommitEntry {
        label: commit.label(),
        files: annotated_all(rules, settings, files_of(commit, deltas)),
    }
}

/// Whether one more commit can be recorded without a counter passing the
/// largest number it can hold.
pub open spec fn fits(log: Seq<CommitEntry>, entry: CommitEntry) -> bool {
    weight_of(log) + cost(entry.files) <= u64::MAX
}

/// The outcome of a step: where the commit fits, the lines of its block
/// and the commit added to those recorded; where it does not, no lines and
/// nothing recorded.
pub open spec fn stepped(
    before: Seq<CommitEntry>,
    entry: CommitEntry,
    lines: Option<Seq<Seq<char>>>,
    after: Seq<CommitEntry>,
) -> bool {
    if fits(before, entry) {
        lines == Some(block(entry)) && after == before.push(entry)
    } else {
        lines is None && after == before
    }
}

impl History {
    /// Takes the next commit of the walk with the deltas of its diff
    /// against its first parent, records it, and returns the lines of its
    /// block. The diff of a root commit is not looked at. Nothing is
    /// recorded, and no lines are returned, where a counter would pass the
    /// largest number it can hold.
    pub fn annotate(
        &mut self,
        ruleset: &Owners,
        settings: Settings,
        commit: &CommitRecord,
        deltas: &Vec<Delta>,
    ) -> (lines: Option<Vec<String>>)
        requires
            old(self).wf(),
        ensures
            final(self).wf(),
            stepped(
                old(self)@,
                entry_of(assignments(*ruleset), settings, commit@, deltas.deep_view()),
                lines.deep_view(),
                final(self)@,
            ),
    {
        let label = commit.label();
        let paths = match commit.diff_base() {
            Some(_) => changed_files(deltas),
            None => Vec::new(),
        };
        assert(paths.deep_view() =~= files_of(commit@, deltas.deep_view()));
        let files = resolve_files(ruleset, settings, &paths);
        if !self.has_room(&files) {
            return None;
        }
        self.record(label.as_str(), &files);
        Some(commit_block(label.as_str(), &files))
    }
}

} // verus!
