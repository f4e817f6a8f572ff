use owner_history::commit::changed_files;
use owner_history::commit::CommitRecord;
use owner_history::commit::Delta;
use owner_history::history::History;
use owner_history::history::Stats;
use owner_history::owner::Settings;
use owner_history::report::commit_block;
use owner_history::report::detail_line_for;
use owner_history::report::example_for;
use owner_history::report::summary_line_for;
use owner_history::report::unowned_line_for;
use owner_history::ruleset::FileOwners;

fn strings(items: &[&str]) -> Vec<String> {
    items.iter().map(|item| item.to_string()).collect()
}

fn commit(id: &str, message: Option<&str>, parents: &[&str]) -> CommitRecord {
    CommitRecord {
        id: id.to_string(),
        message: message.map(|text| text.to_string()),
        parents: strings(parents),
    }
}

fn delta(old: Option<&str>, new: Option<&str>) -> Delta {
    Delta { old_path: old.map(|p| p.to_string()), new_path: new.map(|p| p.to_string()) }
}

fn file(path: &str, names: &[&str], unowned: bool) -> FileOwners {
    FileOwners { path: path.to_string(), names: strings(names), unowned }
}

fn stats(files: u64, commits: u64, example: &str) -> Stats {
    Stats { files, commits, example: example.to_string() }
}

const FIRST: &str = "0123456789abcdef0123456789abcdef01234567";
const SECOND: &str = "fedcba9876543210fedcba9876543210fedcba98";
const ROOT: &str = "aaaaaaaaaaaaaaaaaaaaaaaaaaaaaaaaaaaaaaaa";

#[test]
fn label_is_short_id_and_first_line() {
    assert_eq!(commit(FIRST, Some("Add parser\n\nLong text"), &[ROOT]).label(), "012345 Add parser");
    assert_eq!(commit(FIRST, Some("One line"), &[ROOT]).label(), "012345 One line");
    assert_eq!(commit(FIRST, Some(""), &[ROOT]).label(), "012345 ");
    assert_eq!(commit(FIRST, None, &[ROOT]).label(), "012345 ");
    assert_eq!(commit(FIRST, Some("\nbody only"), &[ROOT]).label(), "012345 ");
    assert_eq!(commit("abc", Some("short id"), &[]).label(), "abc short id");
}

#[test]
fn diff_base_is_the_first_parent() {
    assert_eq!(commit(FIRST, None, &[]).diff_base(), None);
    assert_eq!(commit(FIRST, None, &[ROOT]).diff_base(), Some(&ROOT.to_string()));
    assert_eq!(commit(FIRST, None, &[SECOND, ROOT]).diff_base(), Some(&SECOND.to_string()));
}

#[test]
fn changed_files_are_sorted_and_unique() {
    let deltas = vec![
        delta(Some("src/b.rs"), Some("src/b.rs")),
        delta(None, Some("src/a.rs")),
        delta(Some("old/name.rs"), Some("new/name.rs")),
        delta(Some("README.md"), None),
        delta(Some("src/a.rs"), Some("src/c.rs")),
    ];
    assert_eq!(
        changed_files(&deltas),
        strings(&["README.md", "new/name.rs", "old/name.rs", "src/a.rs", "src/b.rs", "src/c.rs"])
    );
    assert_eq!(changed_files(&Vec::new()), strings(&[]));
    assert_eq!(changed_files(&vec![delta(None, None)]), strings(&[]));
}

#[test]
fn rename_touches_two_paths() {
    assert_eq!(changed_files(&vec![delta(Some("b"), Some("a"))]), strings(&["a", "b"]));
}

#[test]
fn example_quotes_the_path() {
    assert_eq!(example_for("main.go", "012345 Add parser"), "\"main.go\" in 012345 Add parser");
    assert_eq!(example_for("a \"b\"\t.go", "0 m"), "\"a \\\"b\\\"\\t.go\" in 0 m");
}

#[test]
fn detail_line_pairs_path_and_names() {
    assert_eq!(detail_line_for(&file("main.go", &["@core-team"], false)), " * \"main.go\" @core-team");
    assert_eq!(detail_line_for(&file("a", &["@x", "y@z.w"], false)), " * \"a\" @x y@z.w");
    assert_eq!(detail_line_for(&file("README.md", &[], true)), " * \"README.md\" ");
}

#[test]
fn block_of_a_commit_without_files_is_its_label() {
    assert_eq!(commit_block("012345 Merge", &Vec::new()), strings(&["012345 Merge"]));
}

#[test]
fn block_ends_with_an_empty_line() {
    let files = vec![file("README.md", &[], true), file("main.go", &["@core-team"], false)];
    assert_eq!(
        commit_block("012345 Add parser", &files),
        strings(&["012345 Add parser", " * \"README.md\" ", " * \"main.go\" @core-team", ""])
    );
}

#[test]
fn summary_line_has_exact_format() {
    assert_eq!(
        summary_line_for("@core-team", &stats(12, 3, "\"main.go\" in 012345 Add parser")),
        " * @core-team: 12 files in 3 commits, including: \"main.go\" in 012345 Add parser"
    );
    assert_eq!(
        unowned_line_for(&stats(1, 0, "\"README.md\" in 012345 Add parser")),
        " * no owner: 1 files, including: \"README.md\" in 012345 Add parser"
    );
}

#[test]
fn new_history_is_empty() {
    let history = History::new();
    assert_eq!(history.owners(), &strings(&[]));
    assert_eq!(history.unowned(), &stats(0, 0, ""));
    assert_eq!(history.stats_of("@core-team"), None);
    assert_eq!(history.summary_lines(), strings(&["", "Summary:"]));
    assert!(history.has_room(&Vec::new()));
}

#[test]
fn one_commit_with_an_owned_and_an_unowned_file() {
    let rules = codeowners::from_reader("*.go @core-team\n".as_bytes());
    let mut history = History::new();
    let lines = history.annotate(
        &rules,
        Settings::All,
        &commit(FIRST, Some("Add parser\n\nDetails"), &[ROOT]),
        &vec![delta(None, Some("main.go")), delta(Some("README.md"), Some("README.md"))],
    );
    assert_eq!(
        lines,
        Some(strings(&["012345 Add parser", " * \"README.md\" ", " * \"main.go\" @core-team", ""]))
    );
    assert_eq!(history.unowned().files, 1);
    assert_eq!(history.unowned().example, "\"README.md\" in 012345 Add parser");
    assert_eq!(
        history.stats_of("@core-team"),
        Some(&stats(1, 1, "\"main.go\" in 012345 Add parser"))
    );
    assert_eq!(
        history.summary_lines(),
        strings(&[
            "",
            "Summary:",
            " * @core-team: 1 files in 1 commits, including: \"main.go\" in 012345 Add parser",
            " * no owner: 1 files, including: \"README.md\" in 012345 Add parser",
        ])
    );
}

#[test]
fn root_commit_changes_nothing() {
    let rules = codeowners::from_reader("* @everyone\n".as_bytes());
    let mut history = History::new();
    let lines = history.annotate(
        &rules,
        Settings::All,
        &commit(ROOT, Some("Initial commit"), &[]),
        &vec![delta(None, Some("main.go"))],
    );
    assert_eq!(lines, Some(strings(&["aaaaaa Initial commit"])));
    assert_eq!(history.owners(), &strings(&[]));
    assert_eq!(history.unowned(), &stats(0, 0, ""));
    assert_eq!(history.summary_lines(), strings(&["", "Summary:"]));
}

#[test]
fn commit_without_changes_prints_its_label_only() {
    let rules = codeowners::from_reader("* @everyone\n".as_bytes());
    let mut history = History::new();
    history.annotate(
        &rules,
        Settings::All,
        &commit(FIRST, Some("Work"), &[ROOT]),
        &vec![delta(None, Some("a.rs"))],
    );
    let before = history.summary_lines();
    let lines =
        history.annotate(&rules, Settings::All, &commit(SECOND, Some("Merge"), &[FIRST]), &Vec::new());
    assert_eq!(lines, Some(strings(&["fedcba Merge"])));
    assert_eq!(history.summary_lines(), before);
    assert_eq!(history.stats_of("@everyone"), Some(&stats(1, 1, "\"a.rs\" in 012345 Work")));
}

#[test]
fn commits_count_once_and_files_count_each_listing() {
    let mut history = History::new();
    history.record(
        "c1 first",
        &vec![
            file("a.rs", &["@x", "@y"], false),
            file("b.rs", &["@x"], false),
            file("c.rs", &[], true),
        ],
    );
    history.record("c2 second", &vec![file("a.rs", &["@y"], false), file("d.rs", &[], true)]);
    history.record("c3 third", &Vec::new());
    history.record("c4 fourth", &vec![file("z.rs", &["@w", "@x"], false)]);

    assert_eq!(history.owners(), &strings(&["@w", "@x", "@y"]));
    assert_eq!(history.stats_of("@x"), Some(&stats(3, 2, "\"a.rs\" in c1 first")));
    assert_eq!(history.stats_of("@y"), Some(&stats(2, 2, "\"a.rs\" in c1 first")));
    assert_eq!(history.stats_of("@w"), Some(&stats(1, 1, "\"z.rs\" in c4 fourth")));
    assert_eq!(history.stats_of("@v"), None);
    assert_eq!(history.unowned(), &stats(2, 0, "\"c.rs\" in c1 first"));
    assert_eq!(
        history.summary_lines(),
        strings(&[
            "",
            "Summary:",
            " * @w: 1 files in 1 commits, including: \"z.rs\" in c4 fourth",
            " * @x: 3 files in 2 commits, including: \"a.rs\" in c1 first",
            " * @y: 2 files in 2 commits, including: \"a.rs\" in c1 first",
            " * no owner: 2 files, including: \"c.rs\" in c1 first",
        ])
    );
}

#[test]
fn owner_listed_twice_for_a_file_counts_twice() {
    let mut history = History::new();
    history.record("c1 m", &vec![file("a.rs", &["@x", "@x"], false)]);
    assert_eq!(history.stats_of("@x"), Some(&stats(2, 1, "\"a.rs\" in c1 m")));
}

#[test]
fn example_is_never_overwritten() {
    let mut history = History::new();
    history.record("c1 m", &vec![file("b.rs", &["@x"], false), file("c.rs", &[], true)]);
    history.record("c2 m", &vec![file("a.rs", &["@x"], false), file("a.txt", &[], true)]);
    assert_eq!(history.stats_of("@x"), Some(&stats(2, 2, "\"b.rs\" in c1 m")));
    assert_eq!(history.unowned(), &stats(2, 0, "\"c.rs\" in c1 m"));
}

#[test]
fn summary_is_in_ascending_order_of_the_names() {
    let mut history = History::new();
    history.record(
        "c1 m",
        &vec![file("a", &["zed@example.com", "@beta", "@Alpha", "@org/team", "@alpha"], false)],
    );
    let owners = history.owners().clone();
    assert_eq!(owners, strings(&["@Alpha", "@alpha", "@beta", "@org/team", "zed@example.com"]));
    for pair in owners.windows(2) {
        assert!(pair[0] < pair[1]);
    }
    let lines = history.summary_lines();
    assert_eq!(lines.len(), 7);
    for (line, owner) in lines[2..].iter().zip(owners.iter()) {
        assert!(line.starts_with(&format!(" * {}: 1 files in 1 commits", owner)));
    }
}

#[test]
fn summary_has_no_unowned_line_without_unowned_files() {
    let mut history = History::new();
    history.record("c1 m", &vec![file("a", &["@x"], false)]);
    assert_eq!(
        history.summary_lines(),
        strings(&["", "Summary:", " * @x: 1 files in 1 commits, including: \"a\" in c1 m"])
    );
}

#[test]
fn hidden_owner_is_not_unowned() {
    let rules = codeowners::from_reader("*.go @alice\n*.rs @org/rust\n".as_bytes());
    let mut history = History::new();
    let lines = history.annotate(
        &rules,
        Settings::TeamsOnly,
        &commit(FIRST, Some("Mixed"), &[ROOT]),
        &vec![delta(None, Some("main.go")), delta(None, Some("lib.rs")), delta(None, Some("x.txt"))],
    );
    assert_eq!(
        lines,
        Some(strings(&[
            "012345 Mixed",
            " * \"lib.rs\" @org/rust",
            " * \"main.go\" ",
            " * \"x.txt\" ",
            ""
        ]))
    );
    assert_eq!(history.unowned(), &stats(1, 0, "\"x.txt\" in 012345 Mixed"));
    assert_eq!(history.owners(), &strings(&["@org/rust"]));
}

#[test]
fn clearing_rule_counts_as_unowned() {
    let rules = codeowners::from_reader("* @everyone\n*.md\n".as_bytes());
    let mut unmatched_rules_history = History::new();
    let mut history = History::new();
    let lines = history.annotate(
        &rules,
        Settings::All,
        &commit(FIRST, Some("Docs"), &[ROOT]),
        &vec![delta(None, Some("README.md"))],
    );
    let other = unmatched_rules_history.annotate(
        &codeowners::from_reader("*.go @everyone\n".as_bytes()),
        Settings::All,
        &commit(FIRST, Some("Docs"), &[ROOT]),
        &vec![delta(None, Some("README.md"))],
    );
    assert_eq!(lines, Some(strings(&["012345 Docs", " * \"README.md\" ", ""])));
    assert_eq!(lines, other);
    assert_eq!(history.unowned(), &stats(1, 0, "\"README.md\" in 012345 Docs"));
    assert_eq!(history.unowned(), unmatched_rules_history.unowned());
    assert_eq!(history.summary_lines(), unmatched_rules_history.summary_lines());
}

#[test]
fn two_runs_give_the_same_lines() {
    let run = || {
        let rules = codeowners::from_reader("*.go @core-team @alice\ndocs/ docs@example.com\n".as_bytes());
        let mut history = History::new();
        let mut out: Vec<String> = Vec::new();
        let walk = vec![
            (
                commit(SECOND, Some("Second\nbody"), &[FIRST]),
                vec![delta(Some("docs/a.md"), Some("docs/b.md")), delta(None, Some("x.go"))],
            ),
            (commit(FIRST, Some("First"), &[ROOT]), vec![delta(None, Some("y.go")), delta(None, Some("LICENSE"))]),
            (commit(ROOT, None, &[]), Vec::new()),
        ];
        for (record, deltas) in walk.iter() {
            out.extend(history.annotate(&rules, Settings::All, record, deltas).unwrap());
        }
        out.extend(history.summary_lines());
        out
    };
    let first = run();
    assert_eq!(first, run());
    assert_eq!(
        first,
        strings(&[
            "fedcba Second",
            " * \"docs/a.md\" docs@example.com",
            " * \"docs/b.md\" docs@example.com",
            " * \"x.go\" @core-team @alice",
            "",
            "012345 First",
            " * \"LICENSE\" ",
            " * \"y.go\" @core-team @alice",
            "",
            "aaaaaa ",
            "",
            "Summary:",
            " * @alice: 2 files in 2 commits, including: \"x.go\" in fedcba Second",
            " * @core-team: 2 files in 2 commits, including: \"x.go\" in fedcba Second",
            " * docs@example.com: 2 files in 1 commits, including: \"docs/a.md\" in fedcba Second",
            " * no owner: 1 files, including: \"LICENSE\" in 012345 First",
        ])
    );
}

#[test]
fn commits_never_exceed_files_or_commits_walked() {
    let rules = codeowners::from_reader("* @all\n*.go @go @all\nsrc/ @src\n".as_bytes());
    let mut history = History::new();
    let walk = vec![
        vec![delta(None, Some("a.go")), delta(None, Some("src/b.go")), delta(None, Some("c"))],
        vec![],
        vec![delta(Some("src/x"), Some("src/y"))],
        vec![delta(None, Some("z.go"))],
    ];
    let mut walked: u64 = 0;
    for deltas in walk.iter() {
        history.annotate(&rules, Settings::All, &commit(FIRST, Some("m"), &[ROOT]), deltas);
        walked += 1;
        for owner in history.owners().clone().iter() {
            let stats = history.stats_of(owner).unwrap();
            assert!(stats.commits <= walked);
            assert!(stats.commits <= stats.files);
            assert!(stats.commits >= 1);
        }
    }
    assert_eq!(history.stats_of("@all").unwrap(), &stats(3, 2, "\"a.go\" in 012345 m"));
    assert_eq!(history.stats_of("@go").unwrap(), &stats(2, 2, "\"a.go\" in 012345 m"));
    assert_eq!(history.stats_of("@src").unwrap(), &stats(3, 2, "\"src/b.go\" in 012345 m"));
    assert_eq!(history.unowned().files, 0);
}

#[test]
fn quoting_is_that_of_a_path() {
    let samples = ["main.go", "dir/with space/f.rs", "tab\there", "quote\"d", "back\\slash", "ünï/cödé", "日本語.txt", "new\nline", ""];
    for sample in samples.iter() {
        let expected = format!("{:?} in c1", std::path::Path::new(sample));
        assert_eq!(example_for(sample, "c1"), expected);
    }
}
