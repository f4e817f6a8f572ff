//! The lines of the report: a block for each commit during the walk, and
//! the summary after it.

use vstd::prelude::*;
use vstd::string::StringExecFns;
use crate::history::Stats;
use crate::ruleset::FileOwners;
use crate::ruleset::FileOwnersView;
use crate::tally::example_text;
use crate::tally::ranking;
use crate::tally::CommitEntry;
use crate::tally::HistoryView;
use crate::tally::StatsView;
use crate::text::debug_quote;
use crate::text::decimal;
use crate::text::decimal_string;
use crate::text::quoted;
use crate::text::spaced;
use crate::text::spaced_string;

verus! {

/// The line for one changed file: its path, quoted, and the names shown
/// for it. Where there is none the line ends with the space after the
/// path.
pub open spec fn detail_line(file: FileOwnersView) -> Seq<char> {
    " * "@ + quoted(file.path) + " "@ + spaced(file.names)
}

/// The block of one commit. A commit that changed no file is reported by
/// its label alone; any other by its label, a line for each file, and an
/// empty line.
pub open spec fn block(entry: CommitEntry) -> Seq<Seq<char>> {
    if entry.files.len() == 0 {
        seq![entry.label]
    } else {
        seq![entry.label] + entry.files.map_values(|file: FileOwnersView| detail_line(file))
            + seq![Seq::<char>::empty()]
    }
}

/// The summary line of one owner.
pub open spec fn summary_line(owner: Seq<char>, stats: StatsView) -> Seq<char> {
    " * "@ + owner + ": "@ + decimal(stats.files) + " files in "@ + decimal(stats.commits)
        + " commits, including: "@ + stats.example
}

/// The summary line of the files without an owner.
pub open spec fn unowned_line(stats: StatsView) -> Seq<char> {
    " * no owner: "@ + decimal(stats.files) + " files, including: "@ + stats.example
}

/// The summary lines of the owners, in the given order.
pub open spec fn owner_lines(names: Seq<Seq<char>>, owners: Map<Seq<char>, StatsView>) -> Seq<
    Seq<char>,
> {
    Seq::new(names.len(), |i: int| summary_line(names[i], owners[names[i]]))
}

/// The summary: an empty line, the heading, a line for each owner in
/// ascending order of the names, and a last line for the files without an
/// owner if there is any.
pub open spec fn summary(history: HistoryView) -> Seq<Seq<char>> {
    seq![Seq::<char>::empty(), "Summary:"@] + owner_lines(
        ranking(history.owners),
        history.owners,
    ) + if history.unowned.files != 0 {
        seq![unowned_line(history.unowned)]
    } else {
        Seq::<Seq<char>>::empty()
    }
}

/// Where a subject was met: the path, quoted, in the commit of that label.
pub fn example_for(path: &str, label: &str) -> (text: String)
    ensures
        text@ == example_text(path@, label@),
{
    let mut text = debug_quote(path);
    text.append(" in ");
    text.append(label);
    text
}

/// The line for one changed file.
pub fn detail_line_for(file: &FileOwners) -> (line: String)
    ensures
        line@ == detail_line(file@),
{
    let mut line = " * ".to_owned();
    let path = debug_quote(file.path.as_str());
    line.append(path.as_str());
    line.append(" ");
    let names = spaced_string(&file.names);
    line.append(names.as_str());
    line
}

/// The block of one commit.
pub fn commit_block(label: &str, files: &Vec<FileOwners>) -> (lines: Vec<String>)
    ensures
        lines.deep_view() == block(CommitEntry { label: label@, files: files.deep_view() }),
{
    let ghost entry = CommitEntry { label: label@, files: files.deep_view() };
    let mut lines: Vec<String> = Vec::new();
    lines.push(label.to_owned());
    if files.len() == 0 {
        assert(lines.deep_view() =~= block(entry));
        return lines;
    }
    let mut i: usize = 0;
    while i < files.len()
        invariant
            i <= files.len(),
            lines.len() == i + 1,
            lines[0]@ == label@,
            forall|k: int| 0 <= k < i ==> (#[trigger] lines[k + 1])@ == detail_line(files[k]@),
        decreases files.len() - i,
    {
        lines.push(detail_line_for(&files[i]));
        i = i + 1;
    }
    lines.push(String::new());
    assert(lines.deep_view() =~= block(entry)) by {
        let details = entry.files.map_values(|file: FileOwnersView| detail_line(file));
        assert forall|k: int| 0 <= k < files.len() implies lines.deep_view()[k + 1] == details[k] by {
            assert(lines[k + 1]@ == detail_line(files[k]@));
        }
    }
    lines
}

/// The summary line of one owner.
pub fn summary_line_for(owner: &str, stats: &Stats) -> (line: String)
    ensures
        line@ == summary_line(owner@, stats@),
{
    let mut line = " * ".to_owned();
    line.append(owner);
    line.append(": ");
    line.append(decimal_string(stats.files).as_str());
    line.append(" files in ");
    line.append(decimal_string(stats.commits).as_str());
    line.append(" commits, including: ");
    line.append(stats.example.as_str());
    line
}

/// The summary line of the files without an owner.
pub fn unowned_line_for(stats: &Stats) -> (line: String)
    ensures
        line@ == unowned_line(stats@),
{
    let mut line = " * no owner: ".to_owned();
    line.append(decimal_string(stats.files).as_str());
    line.append(" files, including: ");
    line.append(stats.example.as_str());
    line
}

} // verus!
