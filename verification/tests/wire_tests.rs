use yggit::config::{assemble_config, ConfigError};
use yggit::codec::{encode_note, parse_note};
use yggit::note::{merge_note, Note, NoteMergingPolicy, Push};
use yggit::push::{
    classify_push, negotiate, NegotiationResult, NotPushedReason, PushMode, PushOutcome,
    PushedKind,
};

fn sample_note() -> Note {
    Note {
        push: Some(Push { origin: Some("origin".into()), branch: "feature".into() }),
        tests: vec!["cargo test".to_string(), "make \"all\"".to_string()],
    }
}

#[test]
fn wire_format_is_exact() {
    let text = encode_note(&sample_note()).expect("encodable");
    assert_eq!(
        text,
        "{\"push\":{\"origin\":\"origin\",\"branch\":\"feature\"},\"tests\":[\"cargo test\",\"make \\\"all\\\"\"]}"
    );
}

#[test]
fn wire_format_round_trips() {
    let n = sample_note();
    let text = encode_note(&n).expect("encodable");
    assert_eq!(parse_note(&text), Some(n));
}

#[test]
fn wire_format_round_trips_without_origin_or_tests() {
    let n = Note { push: Some(Push { origin: None, branch: "b".into() }), tests: vec![] };
    let text = encode_note(&n).expect("encodable");
    assert_eq!(text, "{\"push\":{\"origin\":null,\"branch\":\"b\"},\"tests\":[]}");
    assert_eq!(parse_note(&text), Some(n));
}

#[test]
fn wire_format_round_trips_the_default_shape() {
    let n = Note { push: None, tests: vec!["echo \\ backslash".to_string()] };
    let text = encode_note(&n).expect("encodable");
    assert_eq!(parse_note(&text), Some(n));
}

#[test]
fn control_characters_cannot_be_encoded() {
    let n = Note { push: Some(Push { origin: None, branch: "a\nb".into() }), tests: vec![] };
    assert_eq!(encode_note(&n), None);
}

#[test]
fn parse_note_rejects_malformed_records() {
    assert_eq!(parse_note("not json"), None);
    assert_eq!(parse_note("{\"push\":null}"), None);
    assert_eq!(parse_note("{\"push\":null,\"tests\":[]} trailing"), None);
    assert_eq!(parse_note("{\"push\":null,\"tests\":[\"unterminated]}"), None);
}

#[test]
fn merge_target_only_keeps_tests() {
    let current = Note {
        push: Some(Push { origin: None, branch: "old".into() }),
        tests: vec!["kept".to_string()],
    };
    let merged = merge_note(
        current,
        Some(Push { origin: Some("origin".into()), branch: "new".into() }),
        vec!["ignored".to_string()],
        NoteMergingPolicy::OnlyTarget,
    );
    assert_eq!(merged.push, Some(Push { origin: Some("origin".into()), branch: "new".into() }));
    assert_eq!(merged.tests, vec!["kept".to_string()]);
}

#[test]
fn merge_tests_only_keeps_target() {
    let current = Note {
        push: Some(Push { origin: None, branch: "kept".into() }),
        tests: vec!["old".to_string()],
    };
    let merged = merge_note(current, None, vec!["new".to_string()], NoteMergingPolicy::OnlyTests);
    assert_eq!(merged.push, Some(Push { origin: None, branch: "kept".into() }));
    assert_eq!(merged.tests, vec!["new".to_string()]);
}

#[test]
fn merge_target_only_clears_an_absent_target() {
    let current = Note {
        push: Some(Push { origin: None, branch: "old".into() }),
        tests: vec!["kept".to_string()],
    };
    let merged = merge_note(current, None, vec![], NoteMergingPolicy::OnlyTarget);
    assert_eq!(merged.push, None);
    assert_eq!(merged.tests, vec!["kept".to_string()]);
    assert!(!merged.is_default());
}

#[test]
fn default_note_is_default() {
    let n = Note::default();
    assert!(n.is_default());
    assert!(!sample_note().is_default());
}

#[test]
fn new_branch_is_accepted_under_every_mode() {
    for mode in [PushMode::Normal, PushMode::Force, PushMode::ForceWithLease] {
        let r = negotiate(mode, &None, &Some("aaaa".to_string()), false);
        assert_eq!(r, NegotiationResult::AllowedToPushNewBranch);
    }
}

#[test]
fn lease_mismatch_is_rejected() {
    let r = negotiate(
        PushMode::ForceWithLease,
        &Some("bbbb".to_string()),
        &Some("aaaa".to_string()),
        true,
    );
    assert_eq!(r, NegotiationResult::RemoteDiverged);
    let missing = negotiate(PushMode::ForceWithLease, &Some("bbbb".to_string()), &None, true);
    assert_eq!(missing, NegotiationResult::RemoteDiverged);
}

#[test]
fn lease_match_is_accepted() {
    let r = negotiate(
        PushMode::ForceWithLease,
        &Some("aaaa".to_string()),
        &Some("aaaa".to_string()),
        false,
    );
    assert_eq!(r, NegotiationResult::AllowedToPush);
}

#[test]
fn force_mode_always_accepts_an_existing_branch() {
    let r = negotiate(PushMode::Force, &Some("bbbb".to_string()), &None, false);
    assert_eq!(r, NegotiationResult::AllowedToPush);
}

#[test]
fn normal_mode_accepts_only_fast_forwards() {
    let ff = negotiate(PushMode::Normal, &Some("aaaa".to_string()), &None, true);
    assert_eq!(ff, NegotiationResult::AllowedToPush);
    let not_ff = negotiate(PushMode::Normal, &Some("aaaa".to_string()), &None, false);
    assert_eq!(not_ff, NegotiationResult::UnimplementedMode);
}

#[test]
fn classification_combines_negotiation_and_transport() {
    assert_eq!(
        classify_push(Some(NegotiationResult::AllowedToPush), Ok(())),
        PushOutcome::Pushed(PushedKind::Updated)
    );
    assert_eq!(
        classify_push(Some(NegotiationResult::AllowedToPushNewBranch), Ok(())),
        PushOutcome::Pushed(PushedKind::NewBranch)
    );
    assert_eq!(
        classify_push(Some(NegotiationResult::RemoteDiverged), Err("boom".to_string())),
        PushOutcome::NotPushed(NotPushedReason::Diverged)
    );
    assert_eq!(
        classify_push(Some(NegotiationResult::NoPushNeeded), Err("boom".to_string())),
        PushOutcome::NotPushed(NotPushedReason::NoUpdateNeeded)
    );
    assert_eq!(
        classify_push(Some(NegotiationResult::UnimplementedMode), Err("x".to_string())),
        PushOutcome::NotPushed(NotPushedReason::UnimplementedMode)
    );
    assert_eq!(
        classify_push(Some(NegotiationResult::AllowedToPush), Err("lost".to_string())),
        PushOutcome::NotPushed(NotPushedReason::TransportError("lost".to_string()))
    );
    assert_eq!(
        classify_push(None, Err("down".to_string())),
        PushOutcome::NotPushed(NotPushedReason::TransportError("down".to_string()))
    );
}

fn full_config(
) -> (Option<String>, Option<String>, Option<String>, Option<String>, Option<String>) {
    (
        Some("kenobi@example.com".to_string()),
        Some("Obi-Wan".to_string()),
        Some("neovim".to_string()),
        Some("refs/notes/commits".to_string()),
        Some("origin".to_string()),
    )
}

#[test]
fn test_open() {
    let (email, name, editor, rewrite, upstream) = full_config();
    let config = assemble_config(email, name, editor, None, rewrite, upstream)
        .expect("should be open");
    assert_eq!(config.user.email, "kenobi@example.com");
    assert_eq!(config.user.name, "Obi-Wan");
    assert_eq!(config.core.editor, "neovim");
    assert_eq!(config.yggit.default_upstream, "origin");
}

#[test]
fn test_open_missing_email() {
    let (_, name, editor, rewrite, upstream) = full_config();
    let config = assemble_config(None, name, editor, None, rewrite, upstream);
    assert!(config.is_err());
    assert_eq!(config.unwrap_err().message(), "email not found in configuration");
}

#[test]
fn test_open_missing_name() {
    let (email, _, editor, rewrite, upstream) = full_config();
    let config = assemble_config(email, None, editor, None, rewrite, upstream);
    assert!(config.is_err());
    assert_eq!(config.unwrap_err().message(), "name not found in configuration");
}

#[test]
fn test_open_missing_editor() {
    let (email, name, _, rewrite, upstream) = full_config();
    let config = assemble_config(
        email.clone(),
        name.clone(),
        None,
        None,
        rewrite.clone(),
        upstream.clone(),
    );
    assert!(config.is_err());
    assert_eq!(config.unwrap_err().message(), "editor not found in configuration");

    let config = assemble_config(email, name, None, Some("emacs".to_string()), rewrite, upstream)
        .expect("should be ok");
    assert_eq!(config.core.editor, "emacs");
}

#[test]
fn test_open_missing_rewrite_ref() {
    let (email, name, editor, _, upstream) = full_config();
    let config = assemble_config(email, name, editor, None, None, upstream);
    assert!(config.is_err());
    assert_eq!(config.unwrap_err().message(), "notes.rewriteRef wasn't found");
}

#[test]
fn test_open_wrong_rewrite_ref() {
    let (email, name, editor, _, upstream) = full_config();
    let config =
        assemble_config(email, name, editor, None, Some("wrong-value".to_string()), upstream);
    assert!(config.is_err());
    assert_eq!(
        config.unwrap_err().message(),
        "rewriteRef should be set to \"refs/notes/commits\""
    );
}

#[test]
fn test_default_upstream() {
    let (email, name, editor, rewrite, _) = full_config();
    let config =
        assemble_config(email, name, editor, None, rewrite, None).expect("should be open");
    assert_eq!(config.yggit.default_upstream, "origin");
}

#[test]
fn test_default_upstream_with_different_value() {
    let (email, name, editor, rewrite, _) = full_config();
    let config =
        assemble_config(email, name, editor, None, rewrite, Some("upstream".to_string()))
            .expect("should be open");
    assert_eq!(config.yggit.default_upstream, "upstream");
}

#[test]
fn config_error_messages_are_stable() {
    assert_eq!(ConfigError::CannotReadConfig.message(), "Cannot open git config");
}

#[test]
fn editor_carries_its_command() {
    let e = yggit::editor::GitEditor::new("neovim".to_string());
    assert_eq!(e.editor, "neovim");
}
