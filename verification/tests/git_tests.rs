use git2::{Oid, Repository, RepositoryInitOptions, Signature};
use tempfile::TempDir;
use yggit::client::{
    commit_id_of_hex, delete_note, find_commit, get_note, list_commits, main_branch, set_note,
    GitClient, GitError,
};
use yggit::config::{Core, GitConfig, User, Yggit};
use yggit::ids::CommitId;
use yggit::note::{Note, Push};

fn test_config() -> GitConfig {
    GitConfig {
        user: User { email: "example@example.com".to_string(), name: "Obi-wan".to_string() },
        core: Core { editor: "theforce".to_string() },
        yggit: Yggit { default_upstream: "origin".to_string() },
    }
}

fn init_repo(initial_branch: &str) -> (TempDir, Repository) {
    let dir = TempDir::new().expect("directory should be created");
    let mut opts = RepositoryInitOptions::new();
    opts.initial_head(initial_branch);
    let repo = Repository::init_opts(dir.path(), &opts).expect("repo should be created");
    (dir, repo)
}

fn sig() -> Signature<'static> {
    Signature::now("Obi-wan", "example@example.com").expect("signature")
}

/// Commit one file on the current head, entirely through the object
/// database.
fn commit_file(repo: &Repository, name: &str, content: &str, msg: &str) -> Oid {
    let blob = repo.blob(content.as_bytes()).expect("blob");
    let parent = repo.head().ok().and_then(|h| h.peel_to_commit().ok());
    let base_tree = parent.as_ref().map(|c| c.tree().expect("tree"));
    let mut tb = repo.treebuilder(base_tree.as_ref()).expect("treebuilder");
    tb.insert(name, blob, 0o100644).expect("insert");
    let tree = repo.find_tree(tb.write().expect("tree write")).expect("find tree");
    let s = sig();
    let parents: Vec<&git2::Commit> = parent.iter().collect();
    repo.commit(Some("HEAD"), &s, &s, msg, &tree, &parents).expect("commit")
}

fn cid(oid: Oid) -> CommitId {
    commit_id_of_hex(&oid.to_string()).expect("a valid id")
}

fn client_for(dir: &TempDir) -> GitClient {
    let repo = Repository::open(dir.path()).expect("should be able to open the repository");
    GitClient::new(repo, test_config())
}

/// A repository with one commit on `main`.
fn init_repo_with_commit() -> (Oid, TempDir) {
    let (dir, repo) = init_repo("main");
    let oid = commit_file(
        &repo,
        "readme.md",
        "# Star wars\nHello there\nGeneral Kenobi\n",
        "first commit\n",
    );
    (oid, dir)
}

#[test]
fn test_find_commit() {
    let (head, dir) = init_repo_with_commit();
    let git = client_for(&dir);
    let commit = find_commit(&git, &cid(head)).expect("commit should be present");
    assert_eq!(commit.title, "first commit");
}

#[test]
fn test_commit_not_found() {
    let (_, dir) = init_repo_with_commit();
    let git = client_for(&dir);
    let zero = commit_id_of_hex(&"0".repeat(40)).expect("a valid id");
    let commit = find_commit(&git, &zero);
    assert!(commit.is_none())
}

fn a_note(branch: &str) -> Note {
    Note { push: Some(Push { origin: None, branch: branch.to_string() }), tests: vec![] }
}

#[test]
fn test_get_note() {
    let (head, dir) = init_repo_with_commit();
    let git = client_for(&dir);
    set_note(&git, &cid(head), &a_note("my super note")).expect("not should be written");
    let note = get_note(&git, &cid(head)).expect("should work").expect(
        "the note has to be present",
    );
    assert_eq!(note, a_note("my super note"));
}

#[test]
fn test_get_no_note() {
    let (_, dir) = init_repo_with_commit();
    let git = client_for(&dir);
    let zero = commit_id_of_hex(&"0".repeat(40)).expect("a valid id");
    let note = get_note(&git, &zero).expect("absence is not an error");
    assert!(note.is_none());
}

#[test]
fn test_set_note() {
    let (head, dir) = init_repo_with_commit();
    let git = client_for(&dir);
    set_note(&git, &cid(head), &a_note("a note")).expect("not should be written");
    let note = get_note(&git, &cid(head)).expect("should work").expect(
        "the note has to be present",
    );
    assert_eq!(note, a_note("a note"));
}

#[test]
fn test_overwrite_note() {
    let (head, dir) = init_repo_with_commit();
    let git = client_for(&dir);
    set_note(&git, &cid(head), &a_note("a note")).expect("not should be written");
    set_note(&git, &cid(head), &a_note("a note 2")).expect("not should be written");
    let note = get_note(&git, &cid(head)).expect("should work").expect(
        "the note has to be present",
    );
    assert_eq!(note, a_note("a note 2"));
}

#[test]
fn test_delete_note() {
    let (head, dir) = init_repo_with_commit();
    let git = client_for(&dir);
    set_note(&git, &cid(head), &a_note("my super note")).expect("not should be written");
    let note = get_note(&git, &cid(head)).expect("should work");
    assert!(note.is_some());
    delete_note(&git, &cid(head)).expect("not should be deleted");
    let note = get_note(&git, &cid(head)).expect("should work");
    assert!(note.is_none())
}

#[test]
fn test_delete_note_two_times() {
    let (head, dir) = init_repo_with_commit();
    let git = client_for(&dir);
    delete_note(&git, &cid(head)).expect("should work");
    delete_note(&git, &cid(head)).expect("should work");
}

#[test]
fn storing_the_default_record_prunes_the_note() {
    let (head, dir) = init_repo_with_commit();
    let git = client_for(&dir);
    set_note(&git, &cid(head), &a_note("feature")).expect("should be written");
    set_note(&git, &cid(head), &Note::default()).expect("pruning should work");
    assert!(get_note(&git, &cid(head)).expect("should work").is_none());
    let repo = Repository::open(dir.path()).expect("open");
    assert!(repo.find_note(None, head).is_err(), "the note blob itself must be gone");
}

#[test]
fn get_note_reads_only_the_last_nonblank_line() {
    let (head, dir) = init_repo_with_commit();
    let git = client_for(&dir);
    let repo = Repository::open(dir.path()).expect("open");
    let s = sig();
    let blob = "{\"push\":{\"origin\":null,\"branch\":\"stale\"},\"tests\":[]}\n\n{\"push\":{\"origin\":null,\"branch\":\"current\"},\"tests\":[\"cargo test\"]}\n   \n";
    repo.note(&s, &s, None, head, blob, true).expect("note written");
    let note = get_note(&git, &cid(head)).expect("should work").expect("present");
    assert_eq!(
        note,
        Note {
            push: Some(Push { origin: None, branch: "current".to_string() }),
            tests: vec!["cargo test".to_string()],
        }
    );
}

#[test]
fn get_note_reports_an_unreadable_record() {
    let (head, dir) = init_repo_with_commit();
    let git = client_for(&dir);
    let repo = Repository::open(dir.path()).expect("open");
    let s = sig();
    repo.note(&s, &s, None, head, "\"my super note\"", true).expect("note written");
    let r = get_note(&git, &cid(head));
    assert_eq!(r, Err(yggit::note::DatabaseError::CannotDeserializeValue));
}

#[test]
fn test_find_main_branch_main() {
    let (_, dir) = init_repo_with_commit();
    let git = client_for(&dir);
    let branch = main_branch(&git).expect("a main branch");
    assert_eq!(branch, "main");
}

#[test]
fn test_find_main_branch_master() {
    let (dir, repo) = init_repo("master");
    commit_file(&repo, "readme.md", "# Star wars", "first commit\n");
    let git = client_for(&dir);
    let branch = main_branch(&git).expect("a main branch");
    assert_eq!(branch, "master");
}

#[test]
fn test_find_unknown_branch() {
    let (dir, repo) = init_repo("unknown");
    commit_file(&repo, "readme.md", "# Star wars", "first commit\n");
    let git = client_for(&dir);
    let branch = main_branch(&git);
    assert!(branch.is_none())
}

#[test]
fn test_list_commits_from_main() {
    let (_, dir) = init_repo_with_commit();
    let git = client_for(&dir);
    let commits = list_commits(&git, &"main".to_string()).expect("should list");
    assert_eq!(commits.len(), 0) // because we are on main
}

#[test]
fn test_list_commits_from_other_branch() {
    let (base, dir) = init_repo_with_commit();
    let repo = Repository::open(dir.path()).expect("open");
    let base_commit = repo.find_commit(base).expect("commit");
    repo.branch("test", &base_commit, false).expect("branch");
    repo.set_head("refs/heads/test").expect("set head");
    let oid = commit_file(&repo, "hey", "hey", "first commit on my branch\n");

    let git = client_for(&dir);
    let commits = list_commits(&git, &"main".to_string()).expect("should list");
    assert_eq!(commits.len(), 1);
    let commit = commits.iter().next().unwrap();
    assert_eq!(commit.id, cid(oid));
    assert_eq!(commit.note, None);
    assert_eq!(commit.title, "first commit on my branch");
    assert_eq!(commit.description, Some("".to_string()));
}

#[test]
fn test_list_commits_unknown_branch() {
    let (_, dir) = init_repo_with_commit();
    let git = client_for(&dir);
    let Err(GitError::BranchNotFound(branch_name)) =
        list_commits(&git, &"whouhouhou".to_string())
    else {
        panic!("expecting an error")
    };
    assert_eq!(branch_name, "whouhouhou")
}

#[test]
fn set_branch_to_commit_moves_the_branch() {
    let (base, dir) = init_repo_with_commit();
    let repo = Repository::open(dir.path()).expect("open");
    let base_commit = repo.find_commit(base).expect("commit");
    repo.branch("work", &base_commit, false).expect("branch");
    repo.set_head("refs/heads/work").expect("set head");
    let top = commit_file(&repo, "more.md", "more", "second commit\n");

    let git = client_for(&dir);
    yggit::client::set_branch_to_commit(&git, &"feature".to_string(), &cid(top))
        .expect("should move");
    let repo = Repository::open(dir.path()).expect("open");
    let feature = repo
        .find_branch("feature", git2::BranchType::Local)
        .expect("branch should exist");
    assert_eq!(feature.get().peel_to_commit().expect("commit").id(), top);
}

#[test]
fn set_branch_on_checked_out_branch_at_commit_is_benign() {
    let (base, dir) = init_repo_with_commit();
    let git = client_for(&dir);
    // `main` is checked out and already points at `base`: the underlying
    // ref update refuses, but the updater treats it as the no-op it is.
    yggit::client::set_branch_to_commit(&git, &"main".to_string(), &cid(base))
        .expect("a benign no-op");
}

#[test]
fn config_is_read_from_the_repository() {
    let (_, dir) = init_repo_with_commit();
    let repo = Repository::open(dir.path()).expect("open");
    let mut cfg = repo.config().expect("config");
    cfg.set_str("user.email", "kenobi@example.com").unwrap();
    cfg.set_str("user.name", "Obi-Wan").unwrap();
    cfg.set_str("core.editor", "neovim").unwrap();
    cfg.set_str("notes.rewriteRef", "refs/notes/commits").unwrap();
    cfg.set_str("yggit.defaultUpstream", "upstream").unwrap();
    let parsed = yggit::client::config_from_repository(&repo, None).expect("should be open");
    assert_eq!(parsed.user.email, "kenobi@example.com");
    assert_eq!(parsed.user.name, "Obi-Wan");
    assert_eq!(parsed.core.editor, "neovim");
    assert_eq!(parsed.yggit.default_upstream, "upstream");
}
