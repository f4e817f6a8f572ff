//! The accumulator of the walk: the statistics of every owner met so far,
//! kept in ascending order of the names, and those of the files without
//! an owner.

use vstd::prelude::*;
use crate::report::example_for;
use crate::report::owner_lines;
use crate::report::summary;
use crate::report::summary_line_for;
use crate::report::unowned_line_for;
use crate::ruleset::FileOwners;
use crate::sorted::ascending;
use crate::sorted::insert_unique;
use crate::sorted::lemma_ascending_index;
use crate::sorted::lemma_insert_ascending;
use crate::sorted::search;
use crate::tally::bumped;
use crate::tally::cost;
use crate::tally::example_text;
use crate::tally::history_of;
use crate::tally::lemma_cost_prefix;
use crate::tally::lemma_next_file;
use crate::tally::lemma_next_name;
use crate::tally::lemma_ranking;
use crate::tally::ranking;
use crate::tally::ranks;
use crate::tally::lemma_unowned_step;
use crate::tally::lemma_whole;
use crate::tally::listings;
use crate::tally::partial;
use crate::tally::weight_of;
use crate::tally::CommitEntry;
use crate::tally::HistoryView;
use crate::tally::StatsView;

verus! {

/// The statistics kept for one subject.
#[derive(Clone, Debug, PartialEq, Eq)]
pub struct Stats {
    /// How many files the subject was listed for, over all commits.
    pub files: u64,
    /// In how many commits it was listed for a file.
    pub commits: u64,
    /// The file and commit where it was met first.
    pub example: String,
}

impl View for Stats {
    type V = StatsView;

    open spec fn view(&self) -> StatsView {
        StatsView { files: self.files as nat, commits: self.commits as nat, example: self.example@ }
    }
}

impl DeepView for Stats {
    type V = StatsView;

    open spec fn deep_view(&self) -> StatsView {
        self@
    }
}

/// The statistics of a walk. Its value is the list of the commits
/// recorded so far: everything it answers is a function of that list.
pub struct History {
    /// The owners met, in strictly ascending order.
    owners: Vec<String>,
    /// The statistics of each owner, at the position of its name.
    stats: Vec<Stats>,
    /// The statistics of the files without an owner.
    unowned: Stats,
    /// The counter steps taken so far. No counter is ahead of it, so none
    /// overflows while this one does not.
    weight: u64,
    /// The commits recorded so far.
    log: Ghost<Seq<CommitEntry>>,
}

impl View for History {
    type V = Seq<CommitEntry>;

    closed spec fn view(&self) -> Seq<CommitEntry> {
        self.log@
    }
}

/// The map that a list of names and a list of statistics of the same
/// length stand for.
spec fn table_of(keys: Seq<Seq<char>>, values: Seq<StatsView>) -> Map<Seq<char>, StatsView> {
    Map::new(|owner: Seq<char>| keys.contains(owner), |owner: Seq<char>| values[keys.index_of(owner)])
}

proof fn lemma_table_update(keys: Seq<Seq<char>>, values: Seq<StatsView>, at: int, value: StatsView)
    requires
        ascending(keys),
        keys.len() == values.len(),
        0 <= at < keys.len(),
    ensures
        table_of(keys, values.update(at, value)) == table_of(keys, values).insert(keys[at], value),
{
    let target = table_of(keys, values).insert(keys[at], value);
    assert forall|owner: Seq<char>| keys.contains(owner) implies table_of(
        keys,
        values.update(at, value),
    )[owner] == target[owner] by {
        let i = keys.index_of(owner);
        lemma_ascending_index(keys, i);
        lemma_ascending_index(keys, at);
    }
    assert(keys.contains(keys[at]));
    assert(table_of(keys, values.update(at, value)) =~= target);
}

proof fn lemma_table_insert(
    keys: Seq<Seq<char>>,
    values: Seq<StatsView>,
    at: int,
    key: Seq<char>,
    value: StatsView,
)
    requires
        ascending(keys),
        ascending(keys.insert(at, key)),
        !keys.contains(key),
        keys.len() == values.len(),
        0 <= at <= keys.len(),
    ensures
        table_of(keys.insert(at, key), values.insert(at, value)) == table_of(keys, values).insert(
            key,
            value,
        ),
{
    let grown = keys.insert(at, key);
    let filled = values.insert(at, value);
    let target = table_of(keys, values).insert(key, value);
    assert(grown[at] == key);
    lemma_ascending_index(grown, at);
    assert forall|owner: Seq<char>| keys.contains(owner) implies grown.contains(owner)
        && table_of(grown, filled)[owner] == target[owner] by {
        let i = keys.index_of(owner);
        let moved = if i < at {
            i
        } else {
            i + 1
        };
        assert(grown[moved] == owner);
        lemma_ascending_index(grown, moved);
    }
    assert forall|owner: Seq<char>| grown.contains(owner) implies keys.contains(owner) || owner
        == key by {
        let i = grown.index_of(owner);
        if i < at {
            assert(keys[i] == owner);
        } else if i > at {
            assert(keys[i - 1] == owner);
        }
    }
    assert(table_of(grown, filled) =~= target);
}

impl History {
    spec fn keys(&self) -> Seq<Seq<char>> {
        self.owners.deep_view()
    }

    spec fn table(&self) -> Map<Seq<char>, StatsView> {
        table_of(self.keys(), self.stats.deep_view())
    }

    spec fn entry(&self, owner: Seq<char>) -> Option<StatsView> {
        if self.table().contains_key(owner) {
            Some(self.table()[owner])
        } else {
            None
        }
    }

    /// The names ascend, each has its statistics, and no counter is ahead
    /// of the steps taken.
    spec fn shaped(&self) -> bool {
        &&& ascending(self.keys())
        &&& self.owners.len() == self.stats.len()
        &&& forall|i: int|
            0 <= i < self.stats.len() ==> (#[trigger] self.stats[i]).commits <= self.stats[i].files
                <= self.weight
        &&& self.unowned.files <= self.weight
    }

    /// The fields hold the statistics of the commits recorded.
    pub closed spec fn wf(&self) -> bool {
        &&& self.shaped()
        &&& self.table() == history_of(self@).owners
        &&& self.unowned@ == history_of(self@).unowned
        &&& self.weight == weight_of(self@)
    }

    /// The statistics of a walk that has not begun.
    pub fn new() -> (history: History)
        ensures
            history.wf(),
            history@ == Seq::<CommitEntry>::empty(),
    {
        let history = History {
            owners: Vec::new(),
            stats: Vec::new(),
            unowned: Stats { files: 0, commits: 0, example: String::new() },
            weight: 0,
            log: Ghost(Seq::empty()),
        };
        assert(history.table() =~= HistoryView::empty().owners);
        history
    }

    /// The names are the ranking of the owners met, and each is paired
    /// with its statistics.
    proof fn lemma_ranked(&self)
        requires
            self.wf(),
        ensures
            self.keys() == ranking(history_of(self@).owners),
            ranks(self.keys(), history_of(self@).owners),
            forall|i: int|
                0 <= i < self.keys().len() ==> history_of(self@).owners[#[trigger] self.keys()[i]]
                    == self.stats[i]@,
    {
        let keys = self.keys();
        assert(keys.to_set() =~= self.table().dom());
        lemma_ranking(keys, history_of(self@).owners);
        assert forall|i: int| 0 <= i < keys.len() implies self.table()[#[trigger] keys[i]]
            == self.stats[i]@ by {
            lemma_ascending_index(keys, i);
        }
    }

    /// The owners met so far, in ascending order.
    pub fn owners(&self) -> (names: &Vec<String>)
        requires
            self.wf(),
        ensures
            names.deep_view() == ranking(history_of(self@).owners),
            ranks(names.deep_view(), history_of(self@).owners),
    {
        proof {
            self.lemma_ranked();
        }
        &self.owners
    }

    /// The statistics of an owner, if it has been met.
    pub fn stats_of(&self, owner: &str) -> (stats: Option<&Stats>)
        requires
            self.wf(),
        ensures
            stats.deep_view() == history_of(self@).stats_of(owner@),
    {
        let (at, found) = search(&self.owners, owner);
        if found {
            proof {
                lemma_ascending_index(self.keys(), at as int);
            }
            Some(&self.stats[at])
        } else {
            None
        }
    }

    /// The statistics of the files without an owner.
    pub fn unowned(&self) -> (stats: &Stats)
        requires
            self.wf(),
        ensures
            stats@ == history_of(self@).unowned,
    {
        &self.unowned
    }

    /// The summary of the walk: one line for each owner, in strictly
    /// ascending order of the names, after the heading; then the line of
    /// the files without an owner, if there is any.
    pub fn summary_lines(&self) -> (lines: Vec<String>)
        requires
            self.wf(),
        ensures
            lines.deep_view() == summary(history_of(self@)),
            ranks(ranking(history_of(self@).owners), history_of(self@).owners),
    {
        let ghost met = history_of(self@).owners;
        proof {
            self.lemma_ranked();
        }
        let mut lines: Vec<String> = Vec::new();
        lines.push(String::new());
        lines.push("Summary:".to_owned());
        let mut i: usize = 0;
        while i < self.owners.len()
            invariant
                i <= self.owners.len(),
                self.owners.len() == self.stats.len(),
                self.keys() == ranking(met),
                forall|k: int|
                    0 <= k < self.keys().len() ==> met[#[trigger] self.keys()[k]] == self.stats[k]@,
                lines.len() == i + 2,
                lines[0]@ == Seq::<char>::empty(),
                lines[1]@ == "Summary:"@,
                forall|k: int|
                    0 <= k < i ==> (#[trigger] lines[k + 2])@ == owner_lines(ranking(met), met)[k],
            decreases self.owners.len() - i,
        {
            assert(self.keys()[i as int] == self.owners[i as int]@);
            lines.push(summary_line_for(self.owners[i].as_str(), &self.stats[i]));
            i = i + 1;
        }
        if self.unowned.files != 0 {
            lines.push(unowned_line_for(&self.unowned));
        }
        proof {
            let wanted = summary(history_of(self@));
            assert(lines.deep_view().len() == wanted.len());
            assert forall|k: int| 0 <= k < wanted.len() implies lines.deep_view()[k]
                == wanted[k] by {
                if 2 <= k < i + 2 {
                    assert(lines[(k - 2) + 2]@ == owner_lines(ranking(met), met)[k - 2]);
                }
            }
            assert(lines.deep_view() =~= wanted);
        }
        lines
    }

    /// Counts one listing of an owner, for a file of the commit at hand.
    fn touch(&mut self, name: &str, first: bool, path: &str, label: &str)
        requires
            old(self).shaped(),
            old(self).weight < u64::MAX,
        ensures
            final(self).shaped(),
            final(self).weight == old(self).weight + 1,
            final(self).unowned == old(self).unowned,
            final(self)@ == old(self)@,
            final(self).table() == old(self).table().insert(
                name@,
                bumped(old(self).entry(name@), first, example_text(path@, label@)),
            ),
    {
        let ghost keys = self.keys();
        let ghost values = self.stats.deep_view();
        let (at, found) = search(&self.owners, name);
        self.weight = self.weight + 1;
        if found {
            proof {
                lemma_ascending_index(keys, at as int);
            }
            self.stats[at].files = self.stats[at].files + 1;
            if first {
                self.stats[at].commits = self.stats[at].commits + 1;
            }
            proof {
                let value = bumped(Some(values[at as int]), first, example_text(path@, label@));
                assert(self.stats.deep_view() =~= values.update(at as int, value));
                lemma_table_update(keys, values, at as int, value);
            }
        } else {
            let stats = Stats { files: 1, commits: 1, example: example_for(path, label) };
            let ghost value = stats@;
            self.owners.insert(at, name.to_owned());
            self.stats.insert(at, stats);
            proof {
                assert(self.keys() =~= keys.insert(at as int, name@));
                assert(self.stats.deep_view() =~= values.insert(at as int, value));
                lemma_insert_ascending(keys, at as int, name@);
                lemma_table_insert(keys, values, at as int, name@, value);
            }
        }
    }

    /// Whether one more commit with these files can be recorded without a
    /// counter passing the largest number it can hold.
    pub fn has_room(&self, files: &Vec<FileOwners>) -> (room: bool)
        requires
            self.wf(),
        ensures
            room == (weight_of(self@) + cost(files.deep_view()) <= u64::MAX),
    {
        let ghost all = files.deep_view();
        if self.weight == u64::MAX {
            proof {
                lemma_cost_prefix(all, 0);
            }
            return false;
        }
        let mut left: u64 = u64::MAX - self.weight - 1;
        let mut j: usize = 0;
        while j < files.len()
            invariant
                j <= files.len(),
                all == files.deep_view(),
                self.weight == weight_of(self@),
                left == u64::MAX - self.weight - cost(all.take(j as int)),
            decreases files.len() - j,
        {
            proof {
                lemma_cost_prefix(all, j + 1);
                assert(all.take(j + 1).drop_last() =~= all.take(j as int));
                assert(all.take(j + 1).last().names.len() == files[j as int].names.len());
            }
            let names = files[j].names.len() as u64;
            if left < 1 || left - 1 < names {
                return false;
            }
            left = left - 1 - names;
            j = j + 1;
        }
        assert(all.take(files.len() as int) =~= all);
        true
    }

    /// Records one commit: its label and its changed files in the order in
    /// which they are reported, each with the names shown for it. The
    /// commit must fit, which `has_room` tells.
    pub fn record(&mut self, label: &str, files: &Vec<FileOwners>)
        requires
            old(self).wf(),
            weight_of(old(self)@) + cost(files.deep_view()) <= u64::MAX,
        ensures
            final(self).wf(),
            final(self)@ == old(self)@.push(CommitEntry { label: label@, files: files.deep_view() }),
    {
        let ghost start = history_of(self@);
        let ghost all = files.deep_view();
        let ghost begun = self.weight;
        proof {
            lemma_cost_prefix(all, 0);
        }
        self.weight = self.weight + 1;
        let mut seen: Vec<String> = Vec::new();
        let mut j: usize = 0;
        assert(start.after(label@, all.take(0)).owners =~= start.owners);
        while j < files.len()
            invariant
                j <= files.len(),
                all == files.deep_view(),
                begun + cost(all) <= u64::MAX,
                self.shaped(),
                self@ == old(self)@,
                start == history_of(self@),
                self.table() == start.after(label@, all.take(j as int)).owners,
                self.unowned@ == start.after(label@, all.take(j as int)).unowned,
                self.weight == begun + cost(all.take(j as int)),
                ascending(seen.deep_view()),
                forall|owner: Seq<char>|
                    seen.deep_view().contains(owner) <==> listings(all.take(j as int), owner) > 0,
            decreases files.len() - j,
        {
            let file = &files[j];
            let ghost done = all.take(j as int);
            proof {
                lemma_cost_prefix(all, j + 1);
                assert(all.take(j + 1) =~= done.push(all[j as int]));
                assert(all.take(j + 1).drop_last() =~= done);
                lemma_next_file(start, label@, done, all[j as int]);
                lemma_unowned_step(start.unowned, label@, done, all[j as int]);
            }
            self.weight = self.weight + 1;
            if file.unowned {
                if self.unowned.files == 0 {
                    self.unowned.example = example_for(file.path.as_str(), label);
                }
                self.unowned.files = self.unowned.files + 1;
            }
            let mut k: usize = 0;
            while k < file.names.len()
                invariant
                    k <= file.names.len(),
                    j < files.len(),
                    all == files.deep_view(),
                    file == &files[j as int],
                    done == all.take(j as int),
                    begun + cost(all.take(j + 1)) <= u64::MAX,
                    cost(all.take(j + 1)) == cost(done) + 1 + file.names.len(),
                    self.shaped(),
                    self@ == old(self)@,
                    start == history_of(self@),
                    self.table() == start.after(
                        label@,
                        done.push(partial(all[j as int], k as int)),
                    ).owners,
                    self.unowned@ == start.after(label@, all.take(j + 1)).unowned,
                    self.weight == begun + cost(done) + 1 + k,
                    ascending(seen.deep_view()),
                    forall|owner: Seq<char>|
                        seen.deep_view().contains(owner) <==> listings(
                            done.push(partial(all[j as int], k as int)),
                            owner,
                        ) > 0,
                decreases file.names.len() - k,
            {
                let name = &file.names[k];
                let ghost now = done.push(partial(all[j as int], k as int));
                let ghost was = seen.deep_view();
                proof {
                    lemma_next_name(start, label@, done, all[j as int], k as int);
                    assert(all[j as int].names[k as int] == name@);
                }
                let first = insert_unique(&mut seen, name.clone());
                assert(first == (listings(now, name@) == 0));
                assert(self.entry(name@) == start.after(label@, now).stats_of(name@));
                self.touch(name.as_str(), first, file.path.as_str(), label);
                proof {
                    assert forall|owner: Seq<char>|
                        seen.deep_view().contains(owner) <==> listings(
                            done.push(partial(all[j as int], k + 1)),
                            owner,
                        ) > 0 by {
                        assert(seen.deep_view().to_set().contains(owner) == was.to_set().insert(
                            name@,
                        ).contains(owner));
                    }
                }
                k = k + 1;
            }
            proof {
                lemma_whole(all[j as int]);
            }
            j = j + 1;
        }
        proof {
            assert(all.take(files.len() as int) =~= all);
        }
        let ghost entry = CommitEntry { label: label@, files: all };
        let ghost grown = self.log@.push(entry);
        self.log = Ghost(grown);
        proof {
            assert(grown.drop_last() =~= old(self)@);
            assert(grown.last() == entry);
        }
    }
}

} // verus!
