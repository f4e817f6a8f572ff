use owner_history::outcome::exit_code;
use owner_history::outcome::queries_outcome;
use owner_history::outcome::Failure;
use owner_history::owner::format_owners;
use owner_history::owner::Owner;
use owner_history::owner::Settings;
use owner_history::ruleset::answer_for;
use owner_history::ruleset::find_owners;
use owner_history::ruleset::names_for;
use owner_history::ruleset::resolve;
use owner_history::ruleset::resolve_all;
use owner_history::ruleset::resolve_files;
use owner_history::ruleset::Answers;
use owner_history::ruleset::FileOwners;

fn strings(items: &[&str]) -> Vec<String> {
    items.iter().map(|item| item.to_string()).collect()
}

fn mixed() -> Vec<Owner> {
    vec![
        Owner::Username("@alice".to_string()),
        Owner::Team("@org/core".to_string()),
        Owner::Email("bob@example.com".to_string()),
        Owner::Team("@org/docs".to_string()),
    ]
}

const RULES: &str = "# owners\n*.go @core-team\ndocs/ @org/docs writer@example.com @carol\n*.md\n";

#[test]
fn display_is_the_identifier() {
    assert_eq!(Owner::Team("@org/core".to_string()).display(), "@org/core");
    assert_eq!(Owner::Username("@alice".to_string()).display(), "@alice");
    assert_eq!(Owner::Email("bob@example.com".to_string()).display(), "bob@example.com");
}

#[test]
fn from_flags_gives_each_filter() {
    assert_eq!(Settings::from_flags(false, false, false), Settings::All);
    assert_eq!(Settings::from_flags(true, false, false), Settings::TeamsOnly);
    assert_eq!(Settings::from_flags(false, true, false), Settings::UsersOnly);
    assert_eq!(Settings::from_flags(false, false, true), Settings::EmailsOnly);
    assert_eq!(Settings::from_flags(true, true, true), Settings::TeamsOnly);
    assert_eq!(Settings::from_flags(false, true, true), Settings::UsersOnly);
}

#[test]
fn render_shows_an_owner_that_passes() {
    let team = Owner::Team("@org/core".to_string());
    let user = Owner::Username("@alice".to_string());
    assert_eq!(Settings::All.render(&team), Some("@org/core".to_string()));
    assert_eq!(Settings::TeamsOnly.render(&team), Some("@org/core".to_string()));
    assert_eq!(Settings::UsersOnly.render(&team), None);
    assert_eq!(Settings::EmailsOnly.render(&user), None);
    assert_eq!(Settings::UsersOnly.render(&user), Some("@alice".to_string()));
}

#[test]
fn formatter_filters_and_keeps_the_order() {
    let owners = mixed();
    assert_eq!(
        format_owners(&owners, Settings::All),
        strings(&["@alice", "@org/core", "bob@example.com", "@org/docs"])
    );
    assert_eq!(format_owners(&owners, Settings::TeamsOnly), strings(&["@org/core", "@org/docs"]));
    assert_eq!(format_owners(&owners, Settings::UsersOnly), strings(&["@alice"]));
    assert_eq!(format_owners(&owners, Settings::EmailsOnly), strings(&["bob@example.com"]));
    assert_eq!(format_owners(&Vec::new(), Settings::All), strings(&[]));
}

#[test]
fn formatter_keeps_an_owner_listed_twice() {
    let owners = vec![Owner::Username("@a".to_string()), Owner::Username("@a".to_string())];
    assert_eq!(format_owners(&owners, Settings::All), strings(&["@a", "@a"]));
}

#[test]
fn names_for_no_answer_is_empty() {
    assert_eq!(names_for(&None, Settings::All), strings(&[]));
    assert_eq!(names_for(&Some(mixed()), Settings::UsersOnly), strings(&["@alice"]));
}

#[test]
fn file_owners_tells_hidden_from_unowned() {
    let hidden = FileOwners::new(
        "a.rs".to_string(),
        &Some(vec![Owner::Username("@alice".to_string())]),
        Settings::TeamsOnly,
    );
    assert_eq!(hidden.path, "a.rs");
    assert_eq!(hidden.names, strings(&[]));
    assert!(!hidden.unowned);

    let cleared = FileOwners::new("a.md".to_string(), &Some(Vec::new()), Settings::All);
    assert_eq!(cleared.names, strings(&[]));
    assert!(cleared.unowned);

    let unmatched = FileOwners::new("a.txt".to_string(), &None, Settings::All);
    assert_eq!(unmatched.names, strings(&[]));
    assert!(unmatched.unowned);

    let owned = FileOwners::new("a.go".to_string(), &Some(mixed()), Settings::EmailsOnly);
    assert_eq!(owned.names, strings(&["bob@example.com"]));
    assert!(!owned.unowned);
}

#[test]
fn find_owners_asks_the_ruleset() {
    let rules = codeowners::from_reader(RULES.as_bytes());
    assert_eq!(find_owners(&rules, Settings::All, "main.go"), strings(&["@core-team"]));
    assert_eq!(find_owners(&rules, Settings::All, "src/deep/main.go"), strings(&["@core-team"]));
    assert_eq!(
        find_owners(&rules, Settings::All, "docs/guide.txt"),
        strings(&["@org/docs", "writer@example.com", "@carol"])
    );
    assert_eq!(find_owners(&rules, Settings::TeamsOnly, "docs/guide.txt"), strings(&["@org/docs"]));
    assert_eq!(find_owners(&rules, Settings::UsersOnly, "docs/guide.txt"), strings(&["@carol"]));
    assert_eq!(
        find_owners(&rules, Settings::EmailsOnly, "docs/guide.txt"),
        strings(&["writer@example.com"])
    );
    assert_eq!(find_owners(&rules, Settings::All, "Makefile"), strings(&[]));
    assert_eq!(find_owners(&rules, Settings::All, "README.md"), strings(&[]));
}

#[test]
fn last_matching_rule_decides() {
    let rules = codeowners::from_reader("* @everyone\n*.js @js-owner\n".as_bytes());
    assert_eq!(find_owners(&rules, Settings::All, "app.js"), strings(&["@js-owner"]));
    assert_eq!(find_owners(&rules, Settings::All, "app.rs"), strings(&["@everyone"]));
}

#[test]
fn clearing_rule_and_unmatched_path_are_both_unowned() {
    let rules = codeowners::from_reader(RULES.as_bytes());
    let cleared = FileOwners::resolve(&rules, Settings::All, "README.md".to_string());
    let unmatched = FileOwners::resolve(&rules, Settings::All, "Makefile".to_string());
    assert!(cleared.unowned);
    assert!(unmatched.unowned);
    assert_eq!(cleared.names, unmatched.names);
    let owned = FileOwners::resolve(&rules, Settings::All, "main.go".to_string());
    assert!(!owned.unowned);
    assert_eq!(owned.names, strings(&["@core-team"]));
}

#[test]
fn resolve_files_keeps_the_order_of_the_paths() {
    let rules = codeowners::from_reader(RULES.as_bytes());
    let files = resolve_files(&rules, Settings::All, &strings(&["README.md", "main.go"]));
    assert_eq!(files.len(), 2);
    assert_eq!(files[0].path, "README.md");
    assert!(files[0].unowned);
    assert_eq!(files[1].path, "main.go");
    assert_eq!(files[1].names, strings(&["@core-team"]));
    assert_eq!(resolve_files(&rules, Settings::All, &Vec::new()), Vec::new());
}

#[test]
fn answer_joins_the_names() {
    assert_eq!(answer_for(&Some(mixed()), Settings::TeamsOnly), Some("@org/core @org/docs".to_string()));
    assert_eq!(answer_for(&Some(mixed()), Settings::UsersOnly), Some("@alice".to_string()));
    assert_eq!(answer_for(&Some(Vec::new()), Settings::All), None);
    assert_eq!(answer_for(&None, Settings::All), None);
    assert_eq!(
        answer_for(&Some(vec![Owner::Username("@alice".to_string())]), Settings::TeamsOnly),
        None
    );
}

#[test]
fn resolve_answers_one_path() {
    let rules = codeowners::from_reader(RULES.as_bytes());
    assert_eq!(resolve(&rules, Settings::All, "main.go"), Some("@core-team".to_string()));
    assert_eq!(
        resolve(&rules, Settings::All, "docs/x"),
        Some("@org/docs writer@example.com @carol".to_string())
    );
    assert_eq!(resolve(&rules, Settings::All, "Makefile"), None);
    assert_eq!(resolve(&rules, Settings::TeamsOnly, "main.go"), None);
}

#[test]
fn queries_stop_at_the_first_miss() {
    let rules = codeowners::from_reader(RULES.as_bytes());
    let answers = resolve_all(&rules, Settings::All, &strings(&["main.go", "Makefile"]));
    assert_eq!(answers.lines, strings(&["@core-team"]));
    assert!(!answers.complete);
    assert_eq!(exit_code(&queries_outcome(&answers)), 2);

    let answers = resolve_all(&rules, Settings::All, &strings(&["Makefile", "main.go"]));
    assert_eq!(answers.lines, strings(&[]));
    assert!(!answers.complete);
    assert_eq!(exit_code(&queries_outcome(&answers)), 2);

    let answers = resolve_all(&rules, Settings::All, &strings(&["a.go", "Makefile", "b.go", "c.go"]));
    assert_eq!(answers.lines, strings(&["@core-team"]));
    assert!(!answers.complete);
}

#[test]
fn queries_that_all_resolve_succeed() {
    let rules = codeowners::from_reader(RULES.as_bytes());
    let answers = resolve_all(&rules, Settings::All, &strings(&["main.go", "docs/a"]));
    assert_eq!(answers.lines, strings(&["@core-team", "@org/docs writer@example.com @carol"]));
    assert!(answers.complete);
    assert_eq!(queries_outcome(&answers), Ok(()));
    assert_eq!(exit_code(&queries_outcome(&answers)), 0);

    let none = resolve_all(&rules, Settings::All, &Vec::new());
    assert_eq!(none, Answers { lines: Vec::new(), complete: true });
}

#[test]
fn exit_codes_follow_the_kind_of_failure() {
    assert_eq!(exit_code(&Ok(())), 0);
    assert_eq!(Failure::Configuration("no ruleset".to_string()).exit_code(), 1);
    assert_eq!(Failure::ResolutionMiss.exit_code(), 2);
    assert_eq!(Failure::RangeOrDiff("bad range".to_string()).exit_code(), 1);
    assert_eq!(exit_code(&Err(Failure::RangeOrDiff("bad range".to_string()))), 1);
    assert_eq!(exit_code(&Err(Failure::ResolutionMiss)), 2);
}

#[test]
fn failures_carry_their_message() {
    assert_eq!(
        Failure::Configuration("no ruleset".to_string()).message(),
        Some(&"no ruleset".to_string())
    );
    assert_eq!(Failure::ResolutionMiss.message(), None);
    assert_eq!(
        Failure::RangeOrDiff("bad range".to_string()).message(),
        Some(&"bad range".to_string())
    );
}
