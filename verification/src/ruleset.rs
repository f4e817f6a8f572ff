//! The ownership ruleset and what it answers for a path.
//!
//! Matching paths against patterns is the work of the `codeowners` crate.
//! The library holds a parsed ruleset as an opaque value and asks it one
//! question, which owners a path has; everything after the answer is
//! verified here.

use vstd::prelude::*;
use codeowners::Owners;
use crate::owner::format_owners;
use crate::owner::shown;
use crate::owner::Owner;
use crate::owner::OwnerView;
use crate::owner::Settings;
use crate::text::spaced;
use crate::text::spaced_string;

verus! {

/// A parsed ruleset of the `codeowners` crate, opaque to the verifier.
#[verifier::external_type_specification]
#[verifier::external_body]
pub struct ExOwners(Owners);

/// What a ruleset holds: for each path that some rule matches, the owners
/// that the deciding rule lists, in the order of that rule. A path that no
/// rule matches has no entry; a rule without owners gives an empty list.
pub uninterp spec fn assignments(ruleset: Owners) -> Map<Seq<char>, Seq<OwnerView>>;

/// The entry of a path, if there is one.
pub open spec fn owners_at(
    rules: Map<Seq<char>, Seq<OwnerView>>,
    path: Seq<char>,
) -> Option<Seq<OwnerView>> {
    if rules.contains_key(path) {
        Some(rules[path])
    } else {
        None
    }
}

/// `Owners::of` of the `codeowners` crate, with each owner it returns
/// copied into the library's `Owner`. The contract claims that the answer
/// is a function of the ruleset and the path alone, and gives that
/// function the name `assignments`; it claims nothing about which owners
/// a given ruleset assigns.
#[verifier::external_body]
fn lookup(ruleset: &Owners, path: &str) -> (found: Option<Vec<Owner>>)
    ensures
        found.deep_view() == owners_at(assignments(*ruleset), path@),
{
    ruleset.of(path).map(|owners| {
        owners.iter().map(|owner| match owner {
            codeowners::Owner::Team(name) => Owner::Team(name.clone()),
            codeowners::Owner::Username(name) => Owner::Username(name.clone()),
            codeowners::Owner::Email(name) => Owner::Email(name.clone()),
        }).collect()
    })
}

/// The names shown for an answer of the ruleset: none where it gave no
/// answer.
pub open spec fn shown_for(found: Option<Seq<OwnerView>>, settings: Settings) -> Seq<Seq<char>> {
    match found {
        Some(owners) => shown(owners, settings),
        None => Seq::empty(),
    }
}

/// Whether an answer of the ruleset leaves the path without an owner:
/// no rule matched, or the rule that decided lists nobody. The display
/// filter plays no part in this.
pub open spec fn is_unowned(found: Option<Seq<OwnerView>>) -> bool {
    match found {
        Some(owners) => owners.len() == 0,
        None => true,
    }
}

/// The names to show for an answer of the ruleset.
pub fn names_for(found: &Option<Vec<Owner>>, settings: Settings) -> (names: Vec<String>)
    ensures
        names.deep_view() == shown_for(found.deep_view(), settings),
{
    match found {
        Some(owners) => format_owners(owners, settings),
        None => {
            let names: Vec<String> = Vec::new();
            assert(names.deep_view() =~= Seq::<Seq<char>>::empty());
            names
        },
    }
}

/// The names to show for a path under a ruleset.
pub fn find_owners(ruleset: &Owners, settings: Settings, path: &str) -> (names: Vec<String>)
    ensures
        names.deep_view() == shown_for(owners_at(assignments(*ruleset), path@), settings),
{
    let found = lookup(ruleset, path);
    names_for(&found, settings)
}

/// A changed file with what the ruleset says of it: the names to show,
/// and whether it is without an owner.
#[derive(Clone, Debug, PartialEq, Eq)]
pub struct FileOwners {
    pub path: String,
    pub names: Vec<String>,
    pub unowned: bool,
}

/// A changed file with its texts as sequences of characters.
pub struct FileOwnersView {
    pub path: Seq<char>,
    pub names: Seq<Seq<char>>,
    pub unowned: bool,
}

impl View for FileOwners {
    type V = FileOwnersView;

    open spec fn view(&self) -> FileOwnersView {
        FileOwnersView { path: self.path@, names: self.names.deep_view(), unowned: self.unowned }
    }
}

impl DeepView for FileOwners {
    type V = FileOwnersView;

    open spec fn deep_view(&self) -> FileOwnersView {
        self@
    }
}

/// A path with an answer of the ruleset. Whether the path is unowned is
/// read from the answer before the display filter is applied, so a path
/// whose owners are all hidden is not unowned.
pub open spec fn annotated(
    path: Seq<char>,
    found: Option<Seq<OwnerView>>,
    settings: Settings,
) -> FileOwnersView {
    FileOwnersView { path, names: shown_for(found, settings), unowned: is_unowned(found) }
}

/// Each path with what the ruleset says of it.
pub open spec fn annotated_all(
    rules: Map<Seq<char>, Seq<OwnerView>>,
    settings: Settings,
    paths: Seq<Seq<char>>,
) -> Seq<FileOwnersView> {
    Seq::new(paths.len(), |i: int| annotated(paths[i], owners_at(rules, paths[i]), settings))
}

impl FileOwners {
    /// Pairs a path with an answer of the ruleset.
    pub fn new(path: String, found: &Option<Vec<Owner>>, settings: Settings) -> (file: FileOwners)
        ensures
            file@ == annotated(path@, found.deep_view(), settings),
    {
        let unowned = match found {
            Some(owners) => owners.len() == 0,
            None => true,
        };
        FileOwners { path, names: names_for(found, settings), unowned }
    }

    /// Pairs a path with what a ruleset says of it.
    pub fn resolve(ruleset: &Owners, settings: Settings, path: String) -> (file: FileOwners)
        ensures
            file@ == annotated(path@, owners_at(assignments(*ruleset), path@), settings),
    {
        let found = lookup(ruleset, path.as_str());
        FileOwners::new(path, &found, settings)
    }
}

/// Pairs each path with what a ruleset says of it, in the order given.
pub fn resolve_files(ruleset: &Owners, settings: Settings, paths: &Vec<String>) -> (files: Vec<
    FileOwners,
>)
    ensures
        files.deep_view() == annotated_all(assignments(*ruleset), settings, paths.deep_view()),
{
    let ghost texts = paths.deep_view();
    let mut files: Vec<FileOwners> = Vec::new();
    let mut i: usize = 0;
    while i < paths.len()
        invariant
            i <= paths.len(),
            texts == paths.deep_view(),
            files.len() == i,
            forall|k: int|
                0 <= k < i ==> (#[trigger] files[k])@ == annotated(
                    texts[k],
                    owners_at(assignments(*ruleset), texts[k]),
                    settings,
                ),
        decreases paths.len() - i,
    {
        let file = FileOwners::resolve(ruleset, settings, paths[i].clone());
        files.push(file);
        i = i + 1;
    }
    assert(files.deep_view() =~= annotated_all(assignments(*ruleset), settings, texts));
    files
}

/// The line that answers a query for one path: the names to show,
/// separated by spaces. There is none where there is no name to show.
pub open spec fn answer(found: Option<Seq<OwnerView>>, settings: Settings) -> Option<Seq<char>> {
    let names = shown_for(found, settings);
    if names.len() == 0 {
        None
    } else {
        Some(spaced(names))
    }
}

/// The line that answers a query, for an answer of the ruleset.
pub fn answer_for(found: &Option<Vec<Owner>>, settings: Settings) -> (line: Option<String>)
    ensures
        line.deep_view() == answer(found.deep_view(), settings),
{
    let names = names_for(found, settings);
    if names.len() == 0 {
        None
    } else {
        Some(spaced_string(&names))
    }
}

/// The line that answers a query for one path under a ruleset, or none
/// where the path has no owner to show.
pub fn resolve(ruleset: &Owners, settings: Settings, path: &str) -> (line: Option<String>)
    ensures
        line.deep_view() == answer(owners_at(assignments(*ruleset), path@), settings),
{
    let found = lookup(ruleset, path);
    answer_for(&found, settings)
}

/// How many of the paths are answered before the first one that has no
/// owner to show.
pub open spec fn answered(
    rules: Map<Seq<char>, Seq<OwnerView>>,
    settings: Settings,
    paths: Seq<Seq<char>>,
) -> nat
    decreases paths.len(),
{
    if paths.len() == 0 || answer(owners_at(rules, paths[0]), settings) is None {
        0
    } else {
        1 + answered(rules, settings, paths.drop_first())
    }
}

/// The outcome of a run of queries: the lines answered, and whether every
/// query was.
#[derive(Clone, Debug, PartialEq, Eq)]
pub struct Answers {
    pub lines: Vec<String>,
    pub complete: bool,
}

/// Answers queries in their order and stops at the first path that has no
/// owner to show: the paths after it are not looked up.
pub fn resolve_all(ruleset: &Owners, settings: Settings, paths: &Vec<String>) -> (answers: Answers)
    ensures
        answers.lines.len() == answered(assignments(*ruleset), settings, paths.deep_view()),
        forall|i: int|
            0 <= i < answers.lines.len() ==> Some((#[trigger] answers.lines[i])@) == answer(
                owners_at(assignments(*ruleset), paths.deep_view()[i]),
                settings,
            ),
        answers.complete == (answers.lines.len() == paths.len()),
{
    let ghost rules = assignments(*ruleset);
    let ghost texts = paths.deep_view();
    let mut lines: Vec<String> = Vec::new();
    let mut i: usize = 0;
    assert(texts.skip(0) =~= texts);
    while i < paths.len()
        invariant
            i <= paths.len(),
            rules == assignments(*ruleset),
            texts == paths.deep_view(),
            lines.len() == i,
            answered(rules, settings, texts) == i + answered(rules, settings, texts.skip(i as int)),
            forall|k: int|
                0 <= k < i ==> Some((#[trigger] lines[k])@) == answer(
                    owners_at(rules, texts[k]),
                    settings,
                ),
        decreases paths.len() - i,
    {
        assert(texts.skip(i as int)[0] == texts[i as int]);
        assert(texts.skip(i as int).drop_first() =~= texts.skip(i + 1));
        match resolve(ruleset, settings, paths[i].as_str()) {
            Some(line) => {
                lines.push(line);
            },
            None => {
                return Answers { lines, complete: false };
            },
        }
        i = i + 1;
    }
    Answers { lines, complete: true }
}

} // verus!
