use alas::registry::{join_tokens, normalize_record, parse_aliases, RawAliasRecord, RawField, RawToken};
use alas::reminder::{check_command, reminder_message};
use alas::resolver::{find_best_alias, matches_alias};

fn def(name: &str, expansion: &str) -> (String, String) {
    (name.to_string(), expansion.to_string())
}

fn text(s: &str) -> RawField {
    RawField::Text(s.to_string())
}

fn tokens(parts: &[&str]) -> RawField {
    RawField::Sequence(parts.iter().map(|p| RawToken::Text(p.to_string())).collect())
}

fn record(name: RawField, expansion: RawField) -> RawAliasRecord {
    RawAliasRecord { name, expansion }
}

#[test]
fn exact_match() {
    let aliases = vec![def("gs", "git status")];
    assert_eq!(find_best_alias("git status", &aliases), Some(def("gs", "git status")));
}

#[test]
fn prefix_with_space_match() {
    let aliases = vec![def("gs", "git status")];
    assert_eq!(find_best_alias("git status --short", &aliases), Some(def("gs", "git status")));
}

#[test]
fn word_boundary_rejection() {
    let aliases = vec![def("l", "ls")];
    assert_eq!(find_best_alias("lsof -i", &aliases), None);
}

#[test]
fn longest_wins() {
    let aliases = vec![def("g", "git"), def("gs", "git status")];
    assert_eq!(find_best_alias("git status --short", &aliases), Some(def("gs", "git status")));
    let reversed = vec![def("gs", "git status"), def("g", "git")];
    assert_eq!(find_best_alias("git status --short", &reversed), Some(def("gs", "git status")));
}

#[test]
fn equal_length_earliest_wins() {
    let aliases = vec![def("first", "git status"), def("second", "git status")];
    assert_eq!(find_best_alias("git status -s", &aliases), Some(def("first", "git status")));
}

#[test]
fn empty_alias_list() {
    let aliases: Vec<(String, String)> = Vec::new();
    assert_eq!(find_best_alias("git status", &aliases), None);
    assert_eq!(find_best_alias("", &aliases), None);
}

#[test]
fn empty_expansion_never_chosen() {
    let aliases = vec![def("e", "")];
    assert_eq!(find_best_alias("", &aliases), None);
    assert_eq!(find_best_alias(" x", &aliases), None);
}

#[test]
fn non_ascii_expansions() {
    assert!(matches_alias("éé x", "éé"));
    let aliases = vec![def("one", "éé"), def("two", "éé x")];
    assert_eq!(find_best_alias("éé x y", &aliases), Some(def("two", "éé x")));
}

#[test]
fn matches_alias_rule() {
    assert!(matches_alias("ls", "ls"));
    assert!(matches_alias("ls -la", "ls"));
    assert!(!matches_alias("lsof", "ls"));
    assert!(!matches_alias("l", "ls"));
    assert!(!matches_alias("ls\t-la", "ls"));
    assert!(!matches_alias("", "ls"));
}

#[test]
fn token_sequence_expansion() {
    let joined = join_tokens(&vec![RawToken::Text("git".to_string()), RawToken::Text("status".to_string())]);
    assert_eq!(joined, Some("git status".to_string()));
    let from_tokens = parse_aliases(&[record(text("gs"), tokens(&["git", "status"]))]);
    let from_text = parse_aliases(&[record(text("gs"), text("git status"))]);
    assert_eq!(from_tokens, vec![def("gs", "git status")]);
    assert_eq!(from_tokens, from_text);
    assert_eq!(
        find_best_alias("git status --short", &from_tokens),
        find_best_alias("git status --short", &from_text)
    );
}

#[test]
fn join_tokens_rejects_non_text() {
    assert_eq!(join_tokens(&vec![RawToken::Text("git".to_string()), RawToken::Other]), None);
    assert_eq!(join_tokens(&vec![]), Some(String::new()));
    assert_eq!(join_tokens(&vec![RawToken::Text("a".to_string())]), Some("a".to_string()));
}

#[test]
fn parsing_is_deterministic() {
    let make = || {
        vec![
            record(text("gs"), text("git status")),
            record(RawField::Missing, text("ls")),
            record(text("gco"), tokens(&["git", "checkout"])),
        ]
    };
    let records = make();
    assert_eq!(parse_aliases(&records), parse_aliases(&records));
    assert_eq!(parse_aliases(&records), parse_aliases(&make()));
}

#[test]
fn malformed_records_are_skipped() {
    let records = vec![
        record(RawField::Missing, text("ls")),
        record(text("a"), RawField::Missing),
        record(text("b"), RawField::Sequence(vec![RawToken::Text("git".to_string()), RawToken::Other])),
        record(text("c"), RawField::Other),
        record(RawField::Other, text("ls")),
        record(tokens(&["x"]), text("ls")),
        record(text("gs"), text("git status")),
        record(text(""), text("ls")),
        record(text("e"), text("")),
        record(text("f"), tokens(&[])),
        record(text("ll"), text("ls -l")),
    ];
    assert_eq!(parse_aliases(&records), vec![def("gs", "git status"), def("ll", "ls -l")]);
    assert_eq!(normalize_record(&records[0]), None);
    assert_eq!(normalize_record(&records[6]), Some(def("gs", "git status")));
}

#[test]
fn parse_keeps_order() {
    let records = vec![
        record(text("b"), text("two")),
        record(text("a"), text("one")),
    ];
    assert_eq!(parse_aliases(&records), vec![def("b", "two"), def("a", "one")]);
    assert_eq!(parse_aliases(&[]), Vec::<(String, String)>::new());
}

#[test]
fn reminder_wording() {
    assert_eq!(
        reminder_message(&Some(def("gs", "git status"))),
        "Alias 'gs' exists for 'git status'"
    );
    assert_eq!(reminder_message(&None), "");
}

#[test]
fn check_command_end_to_end() {
    let records = vec![
        record(text("g"), text("git")),
        record(text("gs"), tokens(&["git", "status"])),
        record(RawField::Missing, text("git status --short")),
    ];
    assert_eq!(check_command("git status --short", &records), "Alias 'gs' exists for 'git status'");
    assert_eq!(check_command("gitk", &records), "");
    assert_eq!(check_command("git", &records), "Alias 'g' exists for 'git'");
}
