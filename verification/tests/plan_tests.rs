use yggit::client::commit_id_of_hex;
use yggit::note::{Note, Push};
use yggit::parser::{Branch, Commit, Line, Parser, ParserError};
use yggit::plan::{commits_to_string, instruction_from_string, EnhancedCommit, Target};

const SHA: &str = "afd1ebed7162bc404e0cc169d25fb4b01806eb2c";

fn id(hex: &str) -> yggit::ids::CommitId {
    commit_id_of_hex(&hex.to_string()).expect("a valid commit id")
}

#[test]
fn test_parser_roundtrip() {
    let file = format!(
        "
afd1ebed7162bc404e0cc169d25fb4b01806eb2c chore: upgrade&é\"'(§è!çà) rust toolchain
afd1ebed7162bc404e0cc169d25fb4b01806eb2c chore: upgrade rust toolchain

afd1ebed7162bc404e0cc169d25fb4b01806eb2c chore: upgrade rust toolchain
-> awesome

afd1ebed7162bc404e0cc169d25fb4b01806eb2c chore: upgrade rust toolchain
-> origin:awesome
"
    );

    let lines = Parser::parse_file(&file).expect("it should be parsed");
    assert_eq!(
        lines,
        vec![
            Line::Commit(Commit {
                sha: "afd1ebed7162bc404e0cc169d25fb4b01806eb2c".into(),
                title: "chore: upgrade&é\"'(§è!çà) rust toolchain".into()
            }),
            Line::Commit(Commit {
                sha: "afd1ebed7162bc404e0cc169d25fb4b01806eb2c".into(),
                title: "chore: upgrade rust toolchain".into()
            }),
            Line::Commit(Commit {
                sha: "afd1ebed7162bc404e0cc169d25fb4b01806eb2c".into(),
                title: "chore: upgrade rust toolchain".into()
            }),
            Line::Branch(Branch {
                origin: None,
                name: "awesome".into(),
            }),
            Line::Commit(Commit {
                sha: "afd1ebed7162bc404e0cc169d25fb4b01806eb2c".into(),
                title: "chore: upgrade rust toolchain".into()
            }),
            Line::Branch(Branch {
                name: "awesome".into(),
                origin: Some("origin".to_string())
            }),
        ]
    )
}

#[test]
fn parse_file_accepts_test_and_comment_lines() {
    let file = format!("# a comment\n{} a title\n$ cargo test\n$  spaced command\n", SHA);
    let lines = Parser::parse_file(&file).expect("should parse");
    assert_eq!(
        lines,
        vec![
            Line::Commit(Commit { sha: SHA.into(), title: "a title".into() }),
            Line::Test("cargo test".into()),
            Line::Test(" spaced command".into()),
        ]
    );
}

#[test]
fn parse_file_normalizes_uppercase_hex() {
    let upper = "AFD1EBED7162BC404E0CC169D25FB4B01806EB2C";
    let file = format!("{} a title\n", upper);
    let lines = Parser::parse_file(&file).expect("should parse");
    assert_eq!(lines, vec![Line::Commit(Commit { sha: SHA.into(), title: "a title".into() })]);
}

#[test]
fn parse_file_rejects_a_malformed_line() {
    let file = format!("{} ok\nnot a commit line\n", SHA);
    let err = Parser::parse_file(&file).expect_err("should be rejected");
    assert_eq!(err, ParserError::IsNotLine { line: "not a commit line".into() });
}

#[test]
fn parse_file_rejects_a_short_id() {
    let err = Parser::parse_file("abc123 too short\n").expect_err("should be rejected");
    assert!(matches!(err, ParserError::IsNotLine { .. }));
}

#[test]
fn render_one_commit_with_metadata() {
    let commits = vec![EnhancedCommit {
        id: id(SHA),
        title: "a title".to_string(),
        description: None,
        note: Some(Note {
            push: Some(Push { origin: Some("origin".into()), branch: "feature".into() }),
            tests: vec!["cargo test".to_string()],
        }),
    }];
    let text = commits_to_string(&commits);
    assert_eq!(text, format!("{} a title\n-> origin:feature\n$ cargo test\n\n", SHA));
}

#[test]
fn render_commit_without_metadata_is_bare() {
    let commits = vec![EnhancedCommit {
        id: id(SHA),
        title: "a title".to_string(),
        description: Some("a description the plan never shows".to_string()),
        note: None,
    }];
    assert_eq!(commits_to_string(&commits), format!("{} a title\n\n", SHA));
}

#[test]
fn instructions_group_annotations_under_their_commit() {
    let text = format!("{} first\n-> origin:feature\n$ cargo test\n\n{} second\n", SHA, SHA);
    let instrs = instruction_from_string(text).expect("should parse");
    assert_eq!(instrs.len(), 2);
    assert_eq!(instrs[0].hash, id(SHA));
    assert_eq!(instrs[0].title, "first");
    assert_eq!(
        instrs[0].target,
        Some(Target { origin: Some("origin".into()), branch: "feature".into() })
    );
    assert_eq!(instrs[0].tests, vec!["cargo test".to_string()]);
    assert_eq!(instrs[1].target, None);
    assert!(instrs[1].tests.is_empty());
}

#[test]
fn instructions_reject_a_target_before_any_commit() {
    assert!(instruction_from_string("-> feature\n".to_string()).is_none());
}

#[test]
fn instructions_reject_two_targets_for_one_commit() {
    let text = format!("{} t\n-> a\n-> b\n", SHA);
    assert!(instruction_from_string(text).is_none());
}

#[test]
fn instructions_reject_a_target_after_a_test_line() {
    let text = format!("{} t\n$ cmd\n-> a\n", SHA);
    assert!(instruction_from_string(text).is_none());
}

#[test]
fn plan_round_trip_preserves_instructions() {
    let commits = vec![
        EnhancedCommit {
            id: id(SHA),
            title: "chore: upgrade&é rust toolchain".to_string(),
            description: None,
            note: Some(Note {
                push: Some(Push { origin: None, branch: "awesome".into() }),
                tests: vec!["make check".to_string(), "cargo test".to_string()],
            }),
        },
        EnhancedCommit {
            id: id("0123456789abcdef0123456789abcdef01234567"),
            title: "a second commit".to_string(),
            description: None,
            note: None,
        },
    ];
    let text = commits_to_string(&commits);
    let instrs = instruction_from_string(text.clone()).expect("rendered plans parse");
    assert_eq!(instrs.len(), 2);
    assert_eq!(instrs[0].hash, commits[0].id);
    assert_eq!(instrs[0].title, commits[0].title);
    assert_eq!(instrs[0].target, Some(Target { origin: None, branch: "awesome".into() }));
    assert_eq!(instrs[0].tests, vec!["make check".to_string(), "cargo test".to_string()]);
    assert_eq!(instrs[1].hash, commits[1].id);
    assert_eq!(instrs[1].target, None);
    assert!(instrs[1].tests.is_empty());
}

#[test]
fn plan_rendering_stabilizes_textually() {
    let commits = vec![EnhancedCommit {
        id: id(SHA),
        title: "a title".to_string(),
        description: Some("dropped by the plan".to_string()),
        note: Some(Note {
            push: Some(Push { origin: Some("origin".into()), branch: "feature".into() }),
            tests: vec!["cargo test".to_string()],
        }),
    }];
    let text = commits_to_string(&commits);
    let instrs = instruction_from_string(text.clone()).expect("rendered plans parse");
    let back: Vec<EnhancedCommit> =
        instrs.into_iter().map(yggit::engine::entry_of_instruction).collect();
    assert_eq!(commits_to_string(&back), text);
}

#[test]
fn empty_plan_renders_and_parses_to_nothing() {
    let commits: Vec<EnhancedCommit> = vec![];
    let text = commits_to_string(&commits);
    assert_eq!(text, "");
    let instrs = instruction_from_string(text).expect("empty plans parse");
    assert!(instrs.is_empty());
}

#[test]
fn editor_help_comments_are_ignored() {
    let text = format!(
        "{} a title\n-> feature\n\n# Here is how to use the plan\n# -> <branch>\n",
        SHA
    );
    let instrs = instruction_from_string(text).expect("should parse");
    assert_eq!(instrs.len(), 1);
    assert_eq!(instrs[0].target, Some(Target { origin: None, branch: "feature".into() }));
}
