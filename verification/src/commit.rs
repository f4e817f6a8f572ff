//! Commits as the walk hands them over, and the set of paths that a diff
//! touches.

use vstd::prelude::*;
use vstd::string::StringExecFns;
use crate::sorted::ascending;
use crate::sorted::insert_unique;
use crate::sorted::lemma_ascending_determined;
use crate::text::first_line;
use crate::text::first_line_of;
use crate::text::prefix;
use crate::text::prefix_of;

verus! {

/// A commit: its identifier in hexadecimal, its message if it has one, and
/// the identifiers of its parents in their order.
#[derive(Clone, Debug, PartialEq, Eq)]
pub struct CommitRecord {
    pub id: String,
    pub message: Option<String>,
    pub parents: Vec<String>,
}

/// A commit with its texts as sequences of characters.
pub struct CommitView {
    pub id: Seq<char>,
    pub message: Option<Seq<char>>,
    pub parents: Seq<Seq<char>>,
}

impl View for CommitRecord {
    type V = CommitView;

    open spec fn view(&self) -> CommitView {
        CommitView {
            id: self.id@,
            message: self.message.deep_view(),
            parents: self.parents.deep_view(),
        }
    }
}

impl DeepView for CommitRecord {
    type V = CommitView;

    open spec fn deep_view(&self) -> CommitView {
        self@
    }
}

impl CommitView {
    /// The message, empty where the commit has none.
    pub open spec fn message_text(self) -> Seq<char> {
        match self.message {
            Some(message) => message,
            None => Seq::empty(),
        }
    }

    /// The label under which the commit is reported: the first six
    /// characters of its identifier, a space, and the first line of its
    /// message.
    pub open spec fn label(self) -> Seq<char> {
        prefix(self.id, 6) + seq![' '] + first_line(self.message_text())
    }

    /// A commit without a parent has nothing to be compared with.
    pub open spec fn is_root(self) -> bool {
        self.parents.len() == 0
    }
}

impl CommitRecord {
    /// The label under which the commit is reported.
    pub fn label(&self) -> (label: String)
        ensures
            label@ == self@.label(),
    {
        let mut label = prefix_of(self.id.as_str(), 6);
        proof {
            reveal_strlit(" ");
        }
        label.append(" ");
        assert(" "@ =~= seq![' ']);
        match &self.message {
            Some(message) => {
                let line = first_line_of(message.as_str());
                label.append(line.as_str());
            },
            None => {
                assert(first_line(Seq::<char>::empty()) =~= Seq::<char>::empty());
                assert(label@ =~= self@.label());
            },
        }
        label
    }

    /// The parent against which the commit is compared: the first one. A
    /// root commit has none, and no diff is to be computed for it.
    pub fn diff_base(&self) -> (base: Option<&String>)
        ensures
            self@.is_root() <==> base is None,
            base matches Some(parent) ==> parent@ == self@.parents[0],
    {
        if self.parents.len() == 0 {
            None
        } else {
            Some(&self.parents[0])
        }
    }
}

/// One changed file of a diff, with its path before and after. A file that
/// was added has no old path, one that was deleted no new path, and a
/// rename has two different ones.
#[derive(Clone, Debug, PartialEq, Eq)]
pub struct Delta {
    pub old_path: Option<String>,
    pub new_path: Option<String>,
}

/// A delta with its paths as sequences of characters.
pub struct DeltaView {
    pub old_path: Option<Seq<char>>,
    pub new_path: Option<Seq<char>>,
}

impl View for Delta {
    type V = DeltaView;

    open spec fn view(&self) -> DeltaView {
        DeltaView { old_path: self.old_path.deep_view(), new_path: self.new_path.deep_view() }
    }
}

impl DeepView for Delta {
    type V = DeltaView;

    open spec fn deep_view(&self) -> DeltaView {
        self@
    }
}

impl DeltaView {
    /// Whether the delta names the path, as its old or its new one.
    pub open spec fn names(self, path: Seq<char>) -> bool {
        self.old_path == Some(path) || self.new_path == Some(path)
    }
}

/// The paths that the deltas of a diff name.
pub open spec fn touched(deltas: Seq<DeltaView>) -> Set<Seq<char>> {
    Set::new(|path: Seq<char>| exists|i: int| 0 <= i < deltas.len() && (#[trigger] deltas[i]).names(path))
}

/// Whether `paths` lists the touched paths of a diff: each once, in
/// ascending order.
pub open spec fn lists_touched(paths: Seq<Seq<char>>, deltas: Seq<DeltaView>) -> bool {
    ascending(paths) && paths.to_set() == touched(deltas)
}

/// The touched paths of a diff, each once, in ascending order.
pub open spec fn changed_paths(deltas: Seq<DeltaView>) -> Seq<Seq<char>> {
    choose|paths: Seq<Seq<char>>| lists_touched(paths, deltas)
}

/// The files that a commit changed: the touched paths of its diff against
/// its first parent, and none for a root commit, whatever is passed as its
/// diff.
pub open spec fn files_of(commit: CommitView, deltas: Seq<DeltaView>) -> Seq<Seq<char>> {
    if commit.is_root() {
        Seq::empty()
    } else {
        changed_paths(deltas)
    }
}

/// There is one list of the touched paths of a diff, and `changed_paths`
/// names it.
pub proof fn lemma_changed_paths(paths: Seq<Seq<char>>, deltas: Seq<DeltaView>)
    requires
        lists_touched(paths, deltas),
    ensures
        paths == changed_paths(deltas),
{
    lemma_ascending_determined(paths, changed_paths(deltas));
}

/// The paths that a diff touches: the old and the new path of every
/// delta, each path once, in ascending order.
pub fn changed_files(deltas: &Vec<Delta>) -> (paths: Vec<String>)
    ensures
        ascending(paths.deep_view()),
        paths.deep_view().to_set() == touched(deltas.deep_view()),
        paths.deep_view() == changed_paths(deltas.deep_view()),
{
    let mut paths: Vec<String> = Vec::new();
    let mut i: usize = 0;
    assert(paths.deep_view().to_set() =~= touched(deltas.deep_view().take(0)));
    while i < deltas.len()
        invariant
            i <= deltas.len(),
            ascending(paths.deep_view()),
            paths.deep_view().to_set() == touched(deltas.deep_view().take(i as int)),
        decreases deltas.len() - i,
    {
        let ghost before = paths.deep_view().to_set();
        let ghost seen = deltas.deep_view().take(i as int);
        let ghost next = deltas.deep_view().take(i + 1);
        let ghost delta = deltas.deep_view()[i as int];
        if let Some(path) = &deltas[i].new_path {
            insert_unique(&mut paths, path.clone());
        }
        if let Some(path) = &deltas[i].old_path {
            insert_unique(&mut paths, path.clone());
        }
        proof {
            assert forall|p: Seq<char>| paths.deep_view().to_set().contains(p) == touched(
                next,
            ).contains(p) by {
                assert(paths.deep_view().to_set().contains(p) == (before.contains(p) || delta.names(
                    p,
                )));
                if touched(seen).contains(p) {
                    let k = choose|k: int| 0 <= k < seen.len() && (#[trigger] seen[k]).names(p);
                    assert(next[k].names(p));
                }
                if delta.names(p) {
                    assert(next[i as int].names(p));
                }
                if touched(next).contains(p) {
                    let k = choose|k: int| 0 <= k < next.len() && (#[trigger] next[k]).names(p);
                    if k < i {
                        assert(seen[k].names(p));
                    }
                }
            }
            assert(paths.deep_view().to_set() =~= touched(next));
        }
        i = i + 1;
    }
    proof {
        assert(deltas.deep_view().take(deltas.len() as int) =~= deltas.deep_view());
        lemma_changed_paths(paths.deep_view(), deltas.deep_view());
    }
    paths
}

} // verus!
