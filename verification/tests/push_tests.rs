use git2::{Oid, Repository, RepositoryInitOptions, Signature};
use tempfile::TempDir;
use yggit::client::{commit_id_of_hex, push_force, push_force_with_lease, GitClient};
use yggit::config::{Core, GitConfig, User, Yggit};
use yggit::note::{Note, Push};
use yggit::plan::EnhancedCommit;
use yggit::push::{NotPushedReason, PushOutcome, PushedKind};

fn test_config() -> GitConfig {
    GitConfig {
        user: User { email: "example@example.com".to_string(), name: "Obi-wan".to_string() },
        core: Core { editor: "theforce".to_string() },
        yggit: Yggit { default_upstream: "origin".to_string() },
    }
}

fn init_bare() -> TempDir {
    let dir = TempDir::new().expect("git bare folder to be created");
    let mut opts = RepositoryInitOptions::new();
    opts.bare(true);
    opts.initial_head("main");
    Repository::init_opts(dir.path(), &opts).expect("bare repo");
    dir
}

fn init_workdir(bare: &TempDir) -> (TempDir, Repository) {
    let dir = TempDir::new().expect("directory should be created");
    let mut opts = RepositoryInitOptions::new();
    opts.initial_head("main");
    let repo = Repository::init_opts(dir.path(), &opts).expect("repo");
    repo.remote("origin", bare.path().to_str().expect("path")).expect("remote");
    (dir, repo)
}

fn clone_from(bare: &TempDir) -> (TempDir, Repository) {
    let dir = TempDir::new().expect("directory should be created");
    let repo = Repository::clone(bare.path().to_str().expect("path"), dir.path())
        .expect("clone should work");
    (dir, repo)
}

fn sig() -> Signature<'static> {
    Signature::now("Obi-wan", "example@example.com").expect("signature")
}

fn commit_file(repo: &Repository, name: &str, content: &str, msg: &str) -> Oid {
    let blob = repo.blob(content.as_bytes()).expect("blob");
    let parent = repo.head().ok().and_then(|h| h.peel_to_commit().ok());
    let base_tree = parent.as_ref().map(|c| c.tree().expect("tree"));
    let mut tb = repo.treebuilder(base_tree.as_ref()).expect("treebuilder");
    tb.insert(name, blob, 0o100644).expect("insert");
    let tree = repo.find_tree(tb.write().expect("tree write")).expect("find tree");
    let s = sig();
    let parents: Vec<&git2::Commit> = parent.iter().collect();
    repo.commit(Some("HEAD"), &s, &s, msg, &tree, &parents).expect("commit")
}

fn raw_force_push(repo: &Repository, refspec: &str) {
    let mut remote = repo.find_remote("origin").expect("origin");
    remote.push(&[refspec], None).expect("fixture push");
}

fn observe(repo: &Repository, branch: &str, oid: Oid) {
    let name = format!("refs/remotes/origin/{}", branch);
    repo.reference(&name, oid, true, "observe").expect("tracking ref");
}

fn bare_branch(bare: &TempDir, branch: &str) -> Option<Oid> {
    let repo = Repository::open(bare.path()).expect("open bare");
    let name = format!("refs/heads/{}", branch);
    repo.find_reference(&name).ok().and_then(|r| r.target())
}

#[test]
fn test_push_force_with_lease_refused() {
    let bare = init_bare();
    // The tested client's repository: one commit, pushed, observed.
    let (dir_b, repo_b) = init_workdir(&bare);
    let cb = commit_file(&repo_b, "yolo.md", "some content", "my first commit\n");
    raw_force_push(&repo_b, "+refs/heads/main");
    observe(&repo_b, "main", cb);
    // An out-of-band actor moves the remote branch.
    let (_dir_a, repo_a) = init_workdir(&bare);
    commit_file(
        &repo_a,
        "readme.md",
        "# Star wars\nHello there\nGeneral Kenobi\n",
        "first commit\n",
    );
    let moved = commit_file(
        &repo_a,
        "other_file.md",
        "# Pride and prejudice\nI love you. Most ardently.\n",
        "pride and prejudice\n",
    );
    raw_force_push(&repo_a, "+refs/heads/main");
    // The push force with lease should be refused because the origin has
    // diverged; no data is transferred.
    let git = GitClient::new(Repository::open(dir_b.path()).expect("git should be open"),
        test_config());
    let result = push_force_with_lease(&git, &"origin".to_string(), &"main".to_string());
    assert!(result.is_err());
    assert_eq!(bare_branch(&bare, "main"), Some(moved));
}

#[test]
fn test_push_force_with_lease_accepted() {
    let bare = init_bare();
    let (_dir_a, repo_a) = init_workdir(&bare);
    let c1 = commit_file(
        &repo_a,
        "readme.md",
        "# Star wars\nHello there\nGeneral Kenobi\n",
        "first commit\n",
    );
    commit_file(
        &repo_a,
        "other_file.md",
        "# Pride and prejudice\nI love you. Most ardently.\n",
        "pride and prejudice\n",
    );
    raw_force_push(&repo_a, "+refs/heads/main");
    // The tested client clones (so its view of the remote is current) and
    // rewrites its history on top of the first commit.
    let (dir_b, repo_b) = clone_from(&bare);
    repo_b.reference("refs/heads/main", c1, true, "rewind").expect("rewind");
    repo_b.set_head("refs/heads/main").expect("set head");
    let cb = commit_file(&repo_b, "anotherfile.md", "hello other file", "new commit\n");
    // The two origins matched, so we can erase the history.
    let git = GitClient::new(Repository::open(dir_b.path()).expect("git should be open"),
        test_config());
    let result = push_force_with_lease(&git, &"origin".to_string(), &"main".to_string());
    assert!(result.is_ok());
    assert_eq!(bare_branch(&bare, "main"), Some(cb));
}

#[test]
fn test_push_force() {
    let bare = init_bare();
    let (dir_b, repo_b) = init_workdir(&bare);
    let cb = commit_file(&repo_b, "yolo.md", "some content", "my first commit\n");
    raw_force_push(&repo_b, "+refs/heads/main");
    observe(&repo_b, "main", cb);
    let (_dir_a, repo_a) = init_workdir(&bare);
    commit_file(
        &repo_a,
        "readme.md",
        "# Star wars\nHello there\nGeneral Kenobi\n",
        "first commit\n",
    );
    commit_file(
        &repo_a,
        "other_file.md",
        "# Pride and prejudice\nI love you. Most ardently.\n",
        "pride and prejudice\n",
    );
    raw_force_push(&repo_a, "+refs/heads/main");
    // Where push --force-with-lease fails, push --force has to work.
    let git = GitClient::new(Repository::open(dir_b.path()).expect("git should be open"),
        test_config());
    let result = push_force(&git, &"origin".to_string(), &"main".to_string());
    assert!(result.is_ok());
    assert_eq!(bare_branch(&bare, "main"), Some(cb));
}

#[test]
fn push_new_branch() {
    let bare = init_bare();
    let (dir, repo) = init_workdir(&bare);
    let base = commit_file(&repo, "readme.md", "hello", "first commit\n");
    let base_commit = repo.find_commit(base).expect("commit");
    repo.branch("pilou@osecour", &base_commit, false).expect("branch");
    repo.set_head("refs/heads/pilou@osecour").expect("set head");
    let top = commit_file(&repo, "test.md", "hello there", "test.md\n");

    let git = GitClient::new(Repository::open(dir.path()).expect("open"), test_config());
    let content = yggit::engine::show(&git, None).expect("a plan");
    let mut splitted = content.split("\n").collect::<Vec<&str>>();
    splitted.insert(1, "-> my-new-branch");
    let commits = splitted.join("\n");

    let reports = yggit::engine::push(&git, commits, false, false).expect("should push");
    assert_eq!(reports.len(), 1);
    assert_eq!(reports[0].branch, "my-new-branch");
    assert_eq!(reports[0].outcome, PushOutcome::Pushed(PushedKind::NewBranch));

    // origin/my-new-branch should be the same as HEAD
    let repo = Repository::open(dir.path()).expect("open");
    let head = repo.head().expect("head").peel_to_commit().expect("commit").id();
    let origin = bare_branch(&bare, "my-new-branch").expect("pushed branch");
    let local = repo
        .find_branch("my-new-branch", git2::BranchType::Local)
        .expect("local branch")
        .get()
        .peel_to_commit()
        .expect("commit")
        .id();
    assert_eq!(head, origin);
    assert_eq!(origin, local);
    assert_eq!(local, head);
    assert_eq!(local, top);
}

#[test]
fn two_branches_report_independently() {
    let bare = init_bare();
    // The remote already has `one`, moved by someone else.
    let (_dir_a, repo_a) = init_workdir(&bare);
    let moved = commit_file(&repo_a, "theirs.md", "their work", "their commit\n");
    raw_force_push(&repo_a, "+refs/heads/main:refs/heads/one");
    // The tested client targets `one` (with a stale lease) and `two`.
    let (dir_b, repo_b) = init_workdir(&bare);
    let c1 = commit_file(&repo_b, "mine.md", "my work", "my commit\n");
    let mine = repo_b.find_commit(c1).expect("commit");
    repo_b.branch("one", &mine, false).expect("branch one");
    repo_b.branch("two", &mine, false).expect("branch two");
    observe(&repo_b, "one", c1);

    let git = GitClient::new(Repository::open(dir_b.path()).expect("open"), test_config());
    let entry = |branch: &str| EnhancedCommit {
        id: commit_id_of_hex(&c1.to_string()).expect("id"),
        title: "my commit".to_string(),
        description: None,
        note: Some(Note {
            push: Some(Push { origin: None, branch: branch.to_string() }),
            tests: vec![],
        }),
    };
    let entries = vec![entry("one"), entry("two")];
    let reports = yggit::client::push_all(&git, &entries, false);

    assert_eq!(reports.len(), 2);
    assert_eq!(reports[0].branch, "one");
    assert_eq!(reports[0].outcome, PushOutcome::NotPushed(NotPushedReason::Diverged));
    assert_eq!(reports[1].branch, "two");
    assert_eq!(reports[1].outcome, PushOutcome::Pushed(PushedKind::NewBranch));
    // The rejected branch was not overwritten; the other one was pushed.
    assert_eq!(bare_branch(&bare, "one"), Some(moved));
    assert_eq!(bare_branch(&bare, "two"), Some(c1));
}
