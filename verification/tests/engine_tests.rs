use git2::{Oid, Repository, RepositoryInitOptions, Signature};
use tempfile::TempDir;
use yggit::client::GitClient;
use yggit::config::{Core, GitConfig, User, Yggit};
use yggit::engine::{apply, push, show, CoreError};
use yggit::note::DatabaseError;

fn test_config() -> GitConfig {
    GitConfig {
        user: User { email: "example@example.com".to_string(), name: "Obi-wan".to_string() },
        core: Core { editor: "theforce".to_string() },
        yggit: Yggit { default_upstream: "origin".to_string() },
    }
}

fn init_repo(initial_branch: &str) -> (TempDir, Repository) {
    let dir = TempDir::new().expect("directory should be created");
    let mut opts = RepositoryInitOptions::new();
    opts.initial_head(initial_branch);
    let repo = Repository::init_opts(dir.path(), &opts).expect("repo should be created");
    (dir, repo)
}

fn sig() -> Signature<'static> {
    Signature::now("Obi-wan", "example@example.com").expect("signature")
}

fn commit_file(repo: &Repository, name: &str, content: &str, msg: &str) -> Oid {
    let blob = repo.blob(content.as_bytes()).expect("blob");
    let parent = repo.head().ok().and_then(|h| h.peel_to_commit().ok());
    let base_tree = parent.as_ref().map(|c| c.tree().expect("tree"));
    let mut tb = repo.treebuilder(base_tree.as_ref()).expect("treebuilder");
    tb.insert(name, blob, 0o100644).expect("insert");
    let tree = repo.find_tree(tb.write().expect("tree write")).expect("find tree");
    let s = sig();
    let parents: Vec<&git2::Commit> = parent.iter().collect();
    repo.commit(Some("HEAD"), &s, &s, msg, &tree, &parents).expect("commit")
}

/// A repository with one commit on `main` and a working branch holding one
/// more commit.
fn repo_with_stack() -> (TempDir, Oid) {
    let (dir, repo) = init_repo("main");
    let base = commit_file(&repo, "readme.md", "hello", "base commit\n");
    let base_commit = repo.find_commit(base).expect("commit");
    repo.branch("work", &base_commit, false).expect("branch");
    repo.set_head("refs/heads/work").expect("set head");
    let top = commit_file(&repo, "feature.md", "work", "feature commit\n");
    (dir, top)
}

fn client_for(dir: &TempDir) -> GitClient {
    GitClient::new(Repository::open(dir.path()).expect("open"), test_config())
}

#[test]
fn show_renders_the_stack() {
    let (dir, top) = repo_with_stack();
    let git = client_for(&dir);
    let text = show(&git, None).expect("a plan");
    assert_eq!(text, format!("{} feature commit\n\n", top));
}

#[test]
fn show_without_main_branch_fails() {
    let (dir, repo) = init_repo("trunk");
    commit_file(&repo, "readme.md", "hello", "base commit\n");
    let git = client_for(&dir);
    let r = show(&git, None);
    assert_eq!(r, Err(CoreError::GitError(yggit::client::GitError::NoMainBranch)));
}

#[test]
fn apply_persists_targets_and_moves_branches() {
    let (dir, top) = repo_with_stack();
    let git = client_for(&dir);
    let plan = format!("{} feature commit\n-> feature\n$ cargo test\n", top);
    let instrs = apply(&git, plan).expect("should apply");
    assert_eq!(instrs.len(), 1);

    let repo = Repository::open(dir.path()).expect("open");
    let feature = repo
        .find_branch("feature", git2::BranchType::Local)
        .expect("the branch should have been created");
    assert_eq!(feature.get().peel_to_commit().expect("commit").id(), top);

    let id = yggit::client::commit_id_of_hex(&top.to_string()).expect("id");
    let note = yggit::client::get_note(&git, &id).expect("should read").expect("present");
    assert_eq!(
        note.push,
        Some(yggit::note::Push { origin: None, branch: "feature".to_string() })
    );
    // The apply flow edits destinations only: its merge is target-only, so
    // the `$` line does not reach the store.
    assert!(note.tests.is_empty());

    // A tests-only merge persists the commands and leaves the target alone.
    yggit::client::merge_notes(&git, &instrs, yggit::note::NoteMergingPolicy::OnlyTests)
        .expect("should merge");
    let note = yggit::client::get_note(&git, &id).expect("should read").expect("present");
    assert_eq!(
        note.push,
        Some(yggit::note::Push { origin: None, branch: "feature".to_string() })
    );
    assert_eq!(note.tests, vec!["cargo test".to_string()]);
}

#[test]
fn apply_rejects_a_malformed_plan_and_writes_nothing() {
    let (dir, top) = repo_with_stack();
    let git = client_for(&dir);
    let plan = format!("{} feature commit\n-> feature\ngarbage line\n", top);
    let r = apply(&git, plan);
    assert!(matches!(r, Err(CoreError::ParserError(_))));
    let repo = Repository::open(dir.path()).expect("open");
    assert!(repo.find_branch("feature", git2::BranchType::Local).is_err());
    let id = yggit::client::commit_id_of_hex(&top.to_string()).expect("id");
    assert!(yggit::client::get_note(&git, &id).expect("should read").is_none());
}

#[test]
fn apply_clears_metadata_for_a_bare_commit_line() {
    let (dir, top) = repo_with_stack();
    let git = client_for(&dir);
    let id = yggit::client::commit_id_of_hex(&top.to_string()).expect("id");
    let with_target = format!("{} feature commit\n-> feature\n", top);
    apply(&git, with_target).expect("should apply");
    assert!(yggit::client::get_note(&git, &id).expect("read").is_some());
    // An entry with no annotation lines clears the stored target; with no
    // tests left the record equals the default and is pruned.
    let bare = format!("{} feature commit\n", top);
    apply(&git, bare).expect("should apply");
    assert!(yggit::client::get_note(&git, &id).expect("read").is_none());
}

#[test]
fn push_with_no_push_only_updates_notes() {
    let (dir, top) = repo_with_stack();
    let git = client_for(&dir);
    let plan = format!("{} feature commit\n-> feature\n", top);
    let reports = push(&git, plan, false, true).expect("should persist");
    assert!(reports.is_empty());
    // The metadata is stored, but no branch is moved and nothing is pushed.
    let id = yggit::client::commit_id_of_hex(&top.to_string()).expect("id");
    let note = yggit::client::get_note(&git, &id).expect("read").expect("present");
    assert_eq!(
        note.push,
        Some(yggit::note::Push { origin: None, branch: "feature".to_string() })
    );
    let repo = Repository::open(dir.path()).expect("open");
    assert!(repo.find_branch("feature", git2::BranchType::Local).is_err());
}

#[test]
fn push_to_a_missing_remote_is_reported_per_branch() {
    let (dir, top) = repo_with_stack();
    let git = client_for(&dir);
    let plan = format!("{} feature commit\n-> nowhere:feature\n", top);
    let reports = push(&git, plan, false, false).expect("the run itself goes through");
    assert_eq!(reports.len(), 1);
    assert!(matches!(
        reports[0].outcome,
        yggit::push::PushOutcome::NotPushed(yggit::push::NotPushedReason::TransportError(_))
    ));
}

#[test]
fn unstorable_strings_are_a_serialization_error() {
    let (dir, top) = repo_with_stack();
    let git = client_for(&dir);
    let id = yggit::client::commit_id_of_hex(&top.to_string()).expect("id");
    let note = yggit::note::Note {
        push: Some(yggit::note::Push { origin: None, branch: "ok".to_string() }),
        tests: vec!["holds a raw \u{7} control character".to_string()],
    };
    let r = yggit::client::set_note(&git, &id, &note);
    assert_eq!(r, Err(DatabaseError::CannotSerializeValue));
}

#[test]
fn list_commits_from_an_unrelated_branch_fails() {
    let (dir, repo) = init_repo("main");
    commit_file(&repo, "readme.md", "hello", "base commit\n");
    // An unrelated root: `other` is no ancestor of the head.
    let blob = repo.blob(b"elsewhere").expect("blob");
    let mut tb = repo.treebuilder(None).expect("treebuilder");
    tb.insert("other.md", blob, 0o100644).expect("insert");
    let tree = repo.find_tree(tb.write().expect("write")).expect("tree");
    let s = sig();
    let unrelated = repo.commit(None, &s, &s, "unrelated\n", &tree, &[]).expect("commit");
    let commit = repo.find_commit(unrelated).expect("commit");
    repo.branch("other", &commit, false).expect("branch");

    let git = client_for(&dir);
    let r = yggit::client::list_commits(&git, &"other".to_string());
    assert!(matches!(r, Err(yggit::client::GitError::CannotReach(_, _))));
}
