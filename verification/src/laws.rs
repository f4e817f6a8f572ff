//! What holds of every walk, stated over the statistics as mathematics and
//! proved from their definition.

use vstd::prelude::*;
use crate::commit::lemma_changed_paths;
use crate::commit::touched;
use crate::commit::CommitView;
use crate::commit::DeltaView;
use crate::owner::OwnerView;
use crate::owner::Settings;
use crate::report::block;
use crate::report::summary;
use crate::report::summary_line;
use crate::owner::shown;
use crate::ruleset::annotated_all;
use crate::ruleset::is_unowned;
use crate::ruleset::owners_at;
use crate::ruleset::shown_for;
use crate::ruleset::FileOwnersView;
use crate::sorted::ascending;
use crate::sorted::lemma_insert_ascending;
use crate::tally::example_text;
use crate::tally::first_listing;
use crate::tally::history_of;
use crate::tally::listings;
use crate::tally::ranking;
use crate::tally::ranks;
use crate::tally::times;
use crate::tally::unowned_count;
use crate::tally::unowned_pairs;
use crate::tally::CommitEntry;
use crate::text::lemma_lt_total;
use crate::text::lemma_lt_transitive;
use crate::text::text_lt;
use crate::walk::entry_of;
use crate::walk::stepped;

verus! {

/// How often an owner is listed for a file over a whole walk.
pub open spec fn files_listed(log: Seq<CommitEntry>, owner: Seq<char>) -> nat
    decreases log.len(),
{
    if log.len() == 0 {
        0
    } else {
        files_listed(log.drop_last(), owner) + listings(log.last().files, owner)
    }
}

/// In how many commits of a walk an owner is listed for a file.
pub open spec fn commits_listing(log: Seq<CommitEntry>, owner: Seq<char>) -> nat
    decreases log.len(),
{
    if log.len() == 0 {
        0
    } else {
        commits_listing(log.drop_last(), owner) + if listings(log.last().files, owner) > 0 {
            1nat
        } else {
            0nat
        }
    }
}

/// The position of the first commit of a walk that lists an owner, where
/// one does.
pub open spec fn first_met(log: Seq<CommitEntry>, owner: Seq<char>) -> int
    decreases log.len(),
{
    if log.len() == 0 {
        0
    } else if files_listed(log.drop_last(), owner) > 0 {
        first_met(log.drop_last(), owner)
    } else {
        log.len() - 1
    }
}

/// The statistics of an owner are what the walk holds of it. An owner has
/// statistics if and only if some file of some commit lists it. Its files
/// are its listings over all commits, its commits are the commits that
/// list it, each counted once, and its example is the first file that
/// lists it in the first commit that does.
pub proof fn lemma_counts(log: Seq<CommitEntry>, owner: Seq<char>)
    ensures
        history_of(log).owners.contains_key(owner) <==> files_listed(log, owner) > 0,
        files_listed(log, owner) > 0 ==> {
            let stats = history_of(log).owners[owner];
            let met = log[first_met(log, owner)];
            &&& stats.files == files_listed(log, owner)
            &&& stats.commits == commits_listing(log, owner)
            &&& 0 <= first_met(log, owner) < log.len()
            &&& listings(met.files, owner) > 0
            &&& stats.example == example_text(
                met.files[first_listing(met.files, owner)].path,
                met.label,
            )
        },
    decreases log.len(),
{
    if log.len() > 0 {
        let earlier = log.drop_last();
        lemma_counts(earlier, owner);
        lemma_listing_bounds(earlier, owner);
        if files_listed(earlier, owner) > 0 {
            assert(log[first_met(log, owner)] == earlier[first_met(earlier, owner)]);
        }
    }
}

/// No owner is credited with more commits than were walked, nor with more
/// commits than files; and an owner that has statistics has at least one
/// of each.
pub proof fn lemma_commits_bounded(log: Seq<CommitEntry>, owner: Seq<char>)
    requires
        history_of(log).owners.contains_key(owner),
    ensures
        1 <= history_of(log).owners[owner].commits <= log.len(),
        history_of(log).owners[owner].commits <= history_of(log).owners[owner].files,
    decreases log.len(),
{
    lemma_counts(log, owner);
    lemma_listing_bounds(log, owner);
}

proof fn lemma_listing_bounds(log: Seq<CommitEntry>, owner: Seq<char>)
    ensures
        commits_listing(log, owner) <= log.len(),
        commits_listing(log, owner) <= files_listed(log, owner),
        files_listed(log, owner) > 0 ==> commits_listing(log, owner) > 0,
    decreases log.len(),
{
    if log.len() > 0 {
        lemma_listing_bounds(log.drop_last(), owner);
    }
}

/// Where the commits of a walk are pairwise distinct, no owner is credited
/// with more commits than there are distinct commits. `ids` holds the
/// identifier of each commit of the walk.
pub proof fn lemma_commits_bounded_distinct(
    log: Seq<CommitEntry>,
    ids: Seq<Seq<char>>,
    owner: Seq<char>,
)
    requires
        ids.len() == log.len(),
        ids.no_duplicates(),
        history_of(log).owners.contains_key(owner),
    ensures
        history_of(log).owners[owner].commits <= ids.to_set().len(),
{
    lemma_commits_bounded(log, owner);
    ids.unique_seq_to_set();
}

/// The files without an owner are counted one by one: their number is
/// that of the files without an owner in the commits walked. No commits
/// are counted for them, and they have an example if there is any.
pub proof fn lemma_unowned_total(log: Seq<CommitEntry>)
    ensures
        history_of(log).unowned.files == unowned_pairs(log),
        history_of(log).unowned.commits == 0,
        unowned_pairs(log) == 0 ==> history_of(log).unowned.example == Seq::<char>::empty(),
    decreases log.len(),
{
    if log.len() > 0 {
        lemma_unowned_total(log.drop_last());
    }
}

/// Whether the ruleset leaves a path without an owner.
pub open spec fn unowned_under(rules: Map<Seq<char>, Seq<OwnerView>>) -> spec_fn(Seq<char>) -> bool {
    |path: Seq<char>| is_unowned(owners_at(rules, path))
}

/// Of the files of a commit, those counted as without an owner are those
/// for which the ruleset gives no answer or an empty one, whatever the
/// display filter.
pub proof fn lemma_unowned_files(
    rules: Map<Seq<char>, Seq<OwnerView>>,
    settings: Settings,
    paths: Seq<Seq<char>>,
)
    ensures
        unowned_count(annotated_all(rules, settings, paths)) == paths.filter(
            unowned_under(rules),
        ).len(),
    decreases paths.len(),
{
    reveal(Seq::filter);
    if paths.len() > 0 {
        lemma_unowned_files(rules, settings, paths.drop_last());
        assert(annotated_all(rules, settings, paths).drop_last() =~= annotated_all(
            rules,
            settings,
            paths.drop_last(),
        ));
    }
}

/// Where every owner is shown, a path is without an owner exactly if no
/// name is shown for it.
pub proof fn lemma_unowned_iff_nothing_shown(found: Option<Seq<OwnerView>>)
    ensures
        is_unowned(found) <==> shown_for(found, Settings::All).len() == 0,
{
    if let Some(owners) = found {
        lemma_all_shown(owners);
    }
}

proof fn lemma_all_shown(owners: Seq<OwnerView>)
    ensures
        shown(owners, Settings::All).len() == owners.len(),
    decreases owners.len(),
{
    if owners.len() > 0 {
        lemma_all_shown(owners.drop_last());
    }
}

/// A commit that changed no file changes no statistics, and its block is
/// its label alone.
pub proof fn lemma_empty_commit(log: Seq<CommitEntry>, label: Seq<char>)
    ensures
        history_of(log.push(CommitEntry { label, files: Seq::empty() })) == history_of(log),
        block(CommitEntry { label, files: Seq::empty() }) == seq![label],
{
    let entry = CommitEntry { label, files: Seq::empty() };
    let history = history_of(log);
    assert(log.push(entry).drop_last() =~= log);
    assert(history.after(label, Seq::empty()).owners =~= history.owners);
}

/// A root commit, and a commit whose diff holds no delta, changed no
/// file.
pub proof fn lemma_no_files(
    rules: Map<Seq<char>, Seq<OwnerView>>,
    settings: Settings,
    commit: CommitView,
    deltas: Seq<DeltaView>,
)
    requires
        commit.is_root() || deltas.len() == 0,
    ensures
        entry_of(rules, settings, commit, deltas).files == Seq::<FileOwnersView>::empty(),
{
    if !commit.is_root() {
        let none = Seq::<Seq<char>>::empty();
        assert(none.to_set() =~= touched(deltas));
        lemma_changed_paths(none, deltas);
    }
    assert(entry_of(rules, settings, commit, deltas).files =~= Seq::<FileOwnersView>::empty());
}

/// Adding one name to an ascending list: there is an ascending list of
/// the names it held and the new one.
proof fn lemma_rank_one_more(names: Seq<Seq<char>>, key: Seq<char>) -> (grown: Seq<Seq<char>>)
    requires
        ascending(names),
    ensures
        ascending(grown),
        grown.to_set() == names.to_set().insert(key),
    decreases names.len(),
{
    if names.len() == 0 {
        let grown = seq![key];
        assert forall|p: Seq<char>| grown.contains(p) == (p == key) by {
            if p == key {
                assert(grown[0] == p);
            }
        }
        assert(grown.to_set() =~= names.to_set().insert(key));
        grown
    } else {
        let last = names.last();
        let rest = names.drop_last();
        assert(names.contains(last)) by {
            assert(names[names.len() - 1] == last);
        }
        if key == last {
            assert(names.to_set() =~= names.to_set().insert(key));
            names
        } else {
            lemma_lt_total(last, key);
            if text_lt(last, key) {
                assert forall|k: int| 0 <= k < names.len() implies text_lt(
                    #[trigger] names[k],
                    key,
                ) by {
                    if k < names.len() - 1 {
                        assert(text_lt(names[k], names[names.len() - 1]));
                        lemma_lt_transitive(names[k], last, key);
                    }
                }
                lemma_insert_ascending(names, names.len() as int, key);
                names.insert(names.len() as int, key)
            } else {
                assert(ascending(rest)) by {
                    assert forall|i: int, j: int| 0 <= i < j < rest.len() implies text_lt(
                        #[trigger] rest[i],
                        #[trigger] rest[j],
                    ) by {
                        assert(text_lt(names[i], names[j]));
                    }
                }
                let inner = lemma_rank_one_more(rest, key);
                assert forall|k: int| 0 <= k < inner.len() implies text_lt(
                    #[trigger] inner[k],
                    last,
                ) by {
                    assert(inner.contains(inner[k]));
                    assert(inner.to_set().contains(inner[k]));
                    if inner[k] != key {
                        assert(rest.contains(inner[k]));
                        let at = choose|at: int| 0 <= at < rest.len() && rest[at] == inner[k];
                        assert(text_lt(names[at], names[names.len() - 1]));
                    }
                }
                lemma_insert_ascending(inner, inner.len() as int, last);
                let grown = inner.insert(inner.len() as int, last);
                assert forall|p: Seq<char>| names.contains(p) == (rest.contains(p) || p
                    == last) by {
                    if names.contains(p) {
                        let at = choose|at: int| 0 <= at < names.len() && names[at] == p;
                        if at < rest.len() {
                            assert(rest[at] == p);
                        }
                    }
                    if rest.contains(p) {
                        let at = choose|at: int| 0 <= at < rest.len() && rest[at] == p;
                        assert(names[at] == p);
                    }
                }
                assert(grown.to_set() =~= names.to_set().insert(key));
                grown
            }
        }
    }
}

/// The owners that a list of names holds.
spec fn named(names: Seq<Seq<char>>) -> Set<Seq<char>> {
    Set::new(|owner: Seq<char>| times(names, owner) > 0)
}

/// The owners that the files of a commit list.
spec fn listed(files: Seq<FileOwnersView>) -> Set<Seq<char>> {
    Set::new(|owner: Seq<char>| listings(files, owner) > 0)
}

proof fn lemma_rank_names(base: Seq<Seq<char>>, names: Seq<Seq<char>>) -> (grown: Seq<Seq<char>>)
    requires
        ascending(base),
    ensures
        ascending(grown),
        grown.to_set() == base.to_set().union(named(names)),
    decreases names.len(),
{
    if names.len() == 0 {
        assert(base.to_set() =~= base.to_set().union(named(names)));
        base
    } else {
        let inner = lemma_rank_names(base, names.drop_last());
        let grown = lemma_rank_one_more(inner, names.last());
        assert(grown.to_set() =~= base.to_set().union(named(names)));
        grown
    }
}

proof fn lemma_rank_listed(base: Seq<Seq<char>>, files: Seq<FileOwnersView>) -> (grown: Seq<
    Seq<char>,
>)
    requires
        ascending(base),
    ensures
        ascending(grown),
        grown.to_set() == base.to_set().union(listed(files)),
    decreases files.len(),
{
    if files.len() == 0 {
        assert(base.to_set() =~= base.to_set().union(listed(files)));
        base
    } else {
        let inner = lemma_rank_listed(base, files.drop_last());
        let grown = lemma_rank_names(inner, files.last().names);
        assert(grown.to_set() =~= base.to_set().union(listed(files)));
        grown
    }
}

/// After every walk the owners met can be listed each once in strictly
/// ascending order, and the summary has its owner lines in that order.
pub proof fn lemma_summary_order(log: Seq<CommitEntry>)
    ensures
        ranks(ranking(history_of(log).owners), history_of(log).owners),
        summary(history_of(log)).len() >= 2 + ranking(history_of(log).owners).len(),
        forall|i: int|
            0 <= i < ranking(history_of(log).owners).len() ==> #[trigger] summary(
                history_of(log),
            )[i + 2] == summary_line(
                ranking(history_of(log).owners)[i],
                history_of(log).owners[ranking(history_of(log).owners)[i]],
            ),
    decreases log.len(),
{
    let met = history_of(log).owners;
    if log.len() == 0 {
        let none = Seq::<Seq<char>>::empty();
        assert(none.to_set() =~= met.dom());
        assert(ranks(none, met));
    } else {
        let earlier = history_of(log.drop_last()).owners;
        lemma_summary_order(log.drop_last());
        let grown = lemma_rank_listed(ranking(earlier), log.last().files);
        assert(grown.to_set() =~= met.dom());
        assert(ranks(grown, met));
    }
}

/// A step has one outcome: the same commits recorded before and the same
/// commit taken give the same lines and the same commits recorded after.
pub proof fn lemma_step_determined(
    before: Seq<CommitEntry>,
    entry: CommitEntry,
    lines: Option<Seq<Seq<char>>>,
    after: Seq<CommitEntry>,
    other_lines: Option<Seq<Seq<char>>>,
    other_after: Seq<CommitEntry>,
)
    requires
        stepped(before, entry, lines, after),
        stepped(before, entry, other_lines, other_after),
    ensures
        lines == other_lines,
        after == other_after,
{
}

} // verus!
