//! What a walk over commits adds up to, as mathematics: the statistics of
//! every owner and of the files without one, defined from the commits that
//! were walked.

use vstd::prelude::*;
use crate::ruleset::FileOwnersView;
use crate::sorted::ascending;
use crate::sorted::lemma_ascending_determined;
use crate::text::quoted;

verus! {

/// The statistics kept for one subject: how many files it was listed for,
/// in how many commits, and where it was met first.
pub struct StatsView {
    pub files: nat,
    pub commits: nat,
    pub example: Seq<char>,
}

/// One commit as the walk reports it: its label and its changed files in
/// the order in which they are reported, each with the names shown for it.
pub struct CommitEntry {
    pub label: Seq<char>,
    pub files: Seq<FileOwnersView>,
}

/// Where a subject was met: the path, quoted, in the commit of that label.
pub open spec fn example_text(path: Seq<char>, label: Seq<char>) -> Seq<char> {
    quoted(path) + " in "@ + label
}

/// How often a name stands in a list of names.
pub open spec fn times(names: Seq<Seq<char>>, owner: Seq<char>) -> nat
    decreases names.len(),
{
    if names.len() == 0 {
        0
    } else {
        times(names.drop_last(), owner) + if names.last() == owner {
            1nat
        } else {
            0nat
        }
    }
}

/// How often an owner is listed for the files of a commit. An owner that
/// a file lists twice counts twice.
pub open spec fn listings(files: Seq<FileOwnersView>, owner: Seq<char>) -> nat
    decreases files.len(),
{
    if files.len() == 0 {
        0
    } else {
        listings(files.drop_last(), owner) + times(files.last().names, owner)
    }
}

/// The position of the first file that lists the owner, where one does:
/// the first among the earlier files if one of them lists it, and else the
/// last file.
pub open spec fn first_listing(files: Seq<FileOwnersView>, owner: Seq<char>) -> int
    decreases files.len(),
{
    if files.len() == 0 {
        0
    } else if listings(files.drop_last(), owner) > 0 {
        first_listing(files.drop_last(), owner)
    } else {
        files.len() - 1
    }
}

/// How many of the files are without an owner.
pub open spec fn unowned_count(files: Seq<FileOwnersView>) -> nat
    decreases files.len(),
{
    if files.len() == 0 {
        0
    } else {
        unowned_count(files.drop_last()) + if files.last().unowned {
            1nat
        } else {
            0nat
        }
    }
}

/// The position of the first file without an owner, where there is one.
pub open spec fn first_unowned(files: Seq<FileOwnersView>) -> int
    decreases files.len(),
{
    if files.len() == 0 {
        0
    } else if unowned_count(files.drop_last()) > 0 {
        first_unowned(files.drop_last())
    } else {
        files.len() - 1
    }
}

/// The statistics of an owner after one more commit. An owner that none
/// of its files lists keeps what it had. One that is listed gains a file
/// for each listing and one commit, and keeps its example if it had one.
pub open spec fn owner_after(
    before: Option<StatsView>,
    label: Seq<char>,
    files: Seq<FileOwnersView>,
    owner: Seq<char>,
) -> Option<StatsView> {
    if listings(files, owner) == 0 {
        before
    } else {
        match before {
            Some(stats) => Some(
                StatsView {
                    files: stats.files + listings(files, owner),
                    commits: stats.commits + 1,
                    example: stats.example,
                },
            ),
            None => Some(
                StatsView {
                    files: listings(files, owner),
                    commits: 1,
                    example: example_text(files[first_listing(files, owner)].path, label),
                },
            ),
        }
    }
}

/// The statistics of the files without an owner after one more commit.
/// The count of commits is not kept for them.
pub open spec fn unowned_after(
    before: StatsView,
    label: Seq<char>,
    files: Seq<FileOwnersView>,
) -> StatsView {
    StatsView {
        files: before.files + unowned_count(files),
        commits: before.commits,
        example: if before.files > 0 || unowned_count(files) == 0 {
            before.example
        } else {
            example_text(files[first_unowned(files)].path, label)
        },
    }
}

/// The statistics of a walk: those of each owner met so far, and those of
/// the files without an owner.
pub struct HistoryView {
    pub owners: Map<Seq<char>, StatsView>,
    pub unowned: StatsView,
}

impl HistoryView {
    /// Before the first commit nobody has been met.
    pub open spec fn empty() -> HistoryView {
        HistoryView {
            owners: Map::empty(),
            unowned: StatsView { files: 0, commits: 0, example: Seq::empty() },
        }
    }

    /// The statistics of an owner, if it has been met.
    pub open spec fn stats_of(self, owner: Seq<char>) -> Option<StatsView> {
        if self.owners.contains_key(owner) {
            Some(self.owners[owner])
        } else {
            None
        }
    }

    /// The statistics after one more commit.
    pub open spec fn after(self, label: Seq<char>, files: Seq<FileOwnersView>) -> HistoryView {
        HistoryView {
            owners: Map::new(
                |owner: Seq<char>| self.owners.contains_key(owner) || listings(files, owner) > 0,
                |owner: Seq<char>| owner_after(self.stats_of(owner), label, files, owner).unwrap(),
            ),
            unowned: unowned_after(self.unowned, label, files),
        }
    }
}

/// The statistics of a walk over the given commits, in their order.
pub open spec fn history_of(log: Seq<CommitEntry>) -> HistoryView
    decreases log.len(),
{
    if log.len() == 0 {
        HistoryView::empty()
    } else {
        history_of(log.drop_last()).after(log.last().label, log.last().files)
    }
}

/// Whether `names` lists the owners met so far: each once, in ascending
/// order.
pub open spec fn ranks(names: Seq<Seq<char>>, owners: Map<Seq<char>, StatsView>) -> bool {
    ascending(names) && names.to_set() == owners.dom()
}

/// The owners met so far, each once, in ascending order.
pub open spec fn ranking(owners: Map<Seq<char>, StatsView>) -> Seq<Seq<char>> {
    choose|names: Seq<Seq<char>>| ranks(names, owners)
}

/// There is one list of the owners met so far, and `ranking` names it.
pub proof fn lemma_ranking(names: Seq<Seq<char>>, owners: Map<Seq<char>, StatsView>)
    requires
        ranks(names, owners),
    ensures
        names == ranking(owners),
{
    lemma_ascending_determined(names, ranking(owners));
}

/// What a commit costs in counter steps: one for itself, one for each of
/// its files, one for each name listed.
pub open spec fn cost(files: Seq<FileOwnersView>) -> nat
    decreases files.len(),
{
    if files.len() == 0 {
        1
    } else {
        cost(files.drop_last()) + 1 + files.last().names.len()
    }
}

/// What a walk costs in counter steps.
pub open spec fn weight_of(log: Seq<CommitEntry>) -> nat
    decreases log.len(),
{
    if log.len() == 0 {
        0
    } else {
        weight_of(log.drop_last()) + cost(log.last().files)
    }
}

/// How many files without an owner the commits of a walk hold.
pub open spec fn unowned_pairs(log: Seq<CommitEntry>) -> nat
    decreases log.len(),
{
    if log.len() == 0 {
        0
    } else {
        unowned_pairs(log.drop_last()) + unowned_count(log.last().files)
    }
}

/// A file with the first `k` of its names.
pub open spec fn partial(file: FileOwnersView, k: int) -> FileOwnersView {
    FileOwnersView { path: file.path, names: file.names.take(k), unowned: file.unowned }
}

/// The statistics of an owner after it was listed once more: for a file
/// of the commit at hand, which lists it for the first time or not.
pub open spec fn bumped(before: Option<StatsView>, first: bool, example: Seq<char>) -> StatsView {
    match before {
        Some(stats) => StatsView {
            files: stats.files + 1,
            commits: stats.commits + if first {
                1nat
            } else {
                0nat
            },
            example: stats.example,
        },
        None => StatsView { files: 1, commits: 1, example },
    }
}

/// A prefix of the files costs no more than all of them.
pub proof fn lemma_cost_prefix(files: Seq<FileOwnersView>, j: int)
    requires
        0 <= j <= files.len(),
    ensures
        cost(files.take(j)) <= cost(files),
    decreases files.len(),
{
    if j < files.len() {
        lemma_cost_prefix(files.drop_last(), j);
        assert(files.drop_last().take(j) =~= files.take(j));
    } else {
        assert(files.take(j) =~= files);
    }
}

/// Where an owner is listed, the first listing is a file of the commit
/// that lists it, and no file before it does.
pub proof fn lemma_first_listing(files: Seq<FileOwnersView>, owner: Seq<char>)
    requires
        listings(files, owner) > 0,
    ensures
        0 <= first_listing(files, owner) < files.len(),
        times(files[first_listing(files, owner)].names, owner) > 0,
        forall|i: int|
            0 <= i < first_listing(files, owner) ==> times((#[trigger] files[i]).names, owner) == 0,
    decreases files.len(),
{
    let earlier = files.drop_last();
    if listings(earlier, owner) > 0 {
        lemma_first_listing(earlier, owner);
    } else {
        lemma_unlisted(earlier, owner);
    }
    assert forall|i: int| 0 <= i < first_listing(files, owner) implies times(
        (#[trigger] files[i]).names,
        owner,
    ) == 0 by {
        assert(files[i] == earlier[i]);
    }
}

/// An owner that is not listed for the files is listed by none of them.
pub proof fn lemma_unlisted(files: Seq<FileOwnersView>, owner: Seq<char>)
    requires
        listings(files, owner) == 0,
    ensures
        forall|i: int| 0 <= i < files.len() ==> times((#[trigger] files[i]).names, owner) == 0,
    decreases files.len(),
{
    if files.len() > 0 {
        let earlier = files.drop_last();
        lemma_unlisted(earlier, owner);
        assert forall|i: int| 0 <= i < files.len() implies times(
            (#[trigger] files[i]).names,
            owner,
        ) == 0 by {
            if i < earlier.len() {
                assert(files[i] == earlier[i]);
            }
        }
    }
}

/// Where a file is without an owner, the first such file is a file of
/// the commit.
pub proof fn lemma_first_unowned(files: Seq<FileOwnersView>)
    requires
        unowned_count(files) > 0,
    ensures
        0 <= first_unowned(files) < files.len(),
        files[first_unowned(files)].unowned,
    decreases files.len(),
{
    if unowned_count(files.drop_last()) > 0 {
        lemma_first_unowned(files.drop_last());
    }
}

/// The file that lists an owner first has the same path whatever names
/// the last file holds, as long as it lists the owner when no earlier file
/// does.
proof fn lemma_same_first(
    done: Seq<FileOwnersView>,
    a: FileOwnersView,
    b: FileOwnersView,
    owner: Seq<char>,
)
    requires
        a.path == b.path,
    ensures
        listings(done.push(a), owner) == listings(done, owner) + times(a.names, owner),
        listings(done.push(b), owner) == listings(done, owner) + times(b.names, owner),
        done.push(a)[first_listing(done.push(a), owner)].path == done.push(b)[first_listing(
            done.push(b),
            owner,
        )].path,
        listings(done, owner) > 0 ==> first_listing(done.push(a), owner) == first_listing(
            done,
            owner,
        ) && done.push(a)[first_listing(done, owner)] == done[first_listing(done, owner)],
        listings(done, owner) == 0 ==> done.push(a)[first_listing(done.push(a), owner)].path
            == a.path,
{
    assert(done.push(a).drop_last() =~= done);
    assert(done.push(b).drop_last() =~= done);
    if listings(done, owner) > 0 {
        lemma_first_listing(done, owner);
    }
}

/// The statistics of the files without an owner do not depend on the
/// names that the last file holds.
proof fn lemma_same_unowned(
    before: StatsView,
    label: Seq<char>,
    done: Seq<FileOwnersView>,
    a: FileOwnersView,
    b: FileOwnersView,
)
    requires
        a.path == b.path,
        a.unowned == b.unowned,
    ensures
        unowned_after(before, label, done.push(a)) == unowned_after(before, label, done.push(b)),
{
    assert(done.push(a).drop_last() =~= done);
    assert(done.push(b).drop_last() =~= done);
    if unowned_count(done) > 0 {
        lemma_first_unowned(done);
    }
}

/// Starting on the next file changes nothing for any owner.
pub proof fn lemma_next_file(
    start: HistoryView,
    label: Seq<char>,
    done: Seq<FileOwnersView>,
    file: FileOwnersView,
)
    ensures
        start.after(label, done.push(partial(file, 0))).owners == start.after(label, done).owners,
        start.after(label, done.push(partial(file, 0))).unowned == start.after(
            label,
            done.push(file),
        ).unowned,
        forall|owner: Seq<char>|
            listings(done.push(partial(file, 0)), owner) == listings(done, owner),
{
    let blank = partial(file, 0);
    let begun = done.push(blank);
    lemma_same_unowned(start.unowned, label, done, blank, file);
    assert forall|owner: Seq<char>| listings(begun, owner) == listings(done, owner) by {
        lemma_same_first(done, blank, blank, owner);
        assert(times(blank.names, owner) == 0);
    }
    assert forall|owner: Seq<char>|
        owner_after(start.stats_of(owner), label, begun, owner) == owner_after(
            start.stats_of(owner),
            label,
            done,
            owner,
        ) by {
        lemma_same_first(done, blank, blank, owner);
    }
    assert(start.after(label, begun).owners =~= start.after(label, done).owners);
}

/// One more name of the file at hand: the owner of that name is bumped,
/// and nothing else changes.
pub proof fn lemma_next_name(
    start: HistoryView,
    label: Seq<char>,
    done: Seq<FileOwnersView>,
    file: FileOwnersView,
    k: int,
)
    requires
        0 <= k < file.names.len(),
    ensures
        start.after(label, done.push(partial(file, k + 1))).owners == start.after(
            label,
            done.push(partial(file, k)),
        ).owners.insert(
            file.names[k],
            bumped(
                start.after(label, done.push(partial(file, k))).stats_of(file.names[k]),
                listings(done.push(partial(file, k)), file.names[k]) == 0,
                example_text(file.path, label),
            ),
        ),
        start.after(label, done.push(partial(file, k + 1))).unowned == start.after(
            label,
            done.push(partial(file, k)),
        ).unowned,
        forall|owner: Seq<char>|
            listings(done.push(partial(file, k + 1)), owner) == listings(
                done.push(partial(file, k)),
                owner,
            ) + if owner == file.names[k] {
                1nat
            } else {
                0nat
            },
{
    let name = file.names[k];
    let a = partial(file, k);
    let b = partial(file, k + 1);
    let now = done.push(a);
    let next = done.push(b);
    lemma_same_unowned(start.unowned, label, done, a, b);
    assert(b.names.drop_last() =~= a.names);
    assert(b.names.last() == name);
    assert forall|owner: Seq<char>| listings(next, owner) == listings(now, owner) + if owner
        == name {
        1nat
    } else {
        0nat
    } by {
        lemma_same_first(done, a, b, owner);
    }
    let target = start.after(label, now).owners.insert(
        name,
        bumped(
            start.after(label, now).stats_of(name),
            listings(now, name) == 0,
            example_text(file.path, label),
        ),
    );
    assert forall|owner: Seq<char>| start.after(label, next).owners.contains_key(owner) implies
        start.after(label, next).owners[owner] == target[owner] by {
        lemma_same_first(done, a, b, owner);
        lemma_same_first(done, b, a, owner);
        let before = start.stats_of(owner);
        let was = owner_after(before, label, now, owner);
        let is = owner_after(before, label, next, owner);
        if owner == name {
            if listings(now, name) == 0 {
                assert(start.after(label, now).stats_of(name) == before);
                assert(is.unwrap() == bumped(before, true, example_text(file.path, label)));
            } else {
                assert(start.after(label, now).stats_of(name) == was);
                assert(is.unwrap() == bumped(was, false, example_text(file.path, label)));
            }
        } else {
            assert(is == was);
        }
    }
    assert(start.after(label, next).owners =~= target);
}

/// One more file: if it is without an owner it is counted, and it is the
/// example if no file was counted before it.
pub proof fn lemma_unowned_step(
    before: StatsView,
    label: Seq<char>,
    done: Seq<FileOwnersView>,
    file: FileOwnersView,
)
    ensures
        unowned_after(before, label, done.push(file)) == if file.unowned {
            StatsView {
                files: unowned_after(before, label, done).files + 1,
                commits: before.commits,
                example: if unowned_after(before, label, done).files == 0 {
                    example_text(file.path, label)
                } else {
                    unowned_after(before, label, done).example
                },
            }
        } else {
            unowned_after(before, label, done)
        },
{
    assert(done.push(file).drop_last() =~= done);
    if unowned_count(done) > 0 {
        lemma_first_unowned(done);
    }
}

/// With all its names a file is itself.
pub proof fn lemma_whole(file: FileOwnersView)
    ensures
        partial(file, file.names.len() as int) == file,
{
    assert(file.names.take(file.names.len() as int) =~= file.names);
}

} // verus!
