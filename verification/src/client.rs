use vstd::prelude::*;

verus! {

use crate::ids::CommitId;
use crate::note::{Note, DatabaseError, note_is_default};
use crate::codec::spec_parse_note;
use crate::textutil::{spec_lines_of, spec_is_blank, chars_of, split_lines, is_blank,
    string_from_range};
use vstd::string::StringExecFns;

// The one interface over the backing repository that the engine depends
// on: read, write and delete a commit's metadata blob, list commits, move
// a branch, push. Each raw operation is a thin trusted call into the
// repository library; everything that interprets or produces data is
// verified.
#[verifier::external_type_specification]
#[verifier::external_body]
pub struct ExRepository(git2::Repository);

/// Relies on `git2::Config::get_string` on the repository's
/// configuration: the value of the named key, when it is set.
#[verifier::external_body]
fn config_get_raw(repository: &git2::Repository, key: &str) -> (r: Option<String>) {
    repository.config().ok()?.get_string(key).ok()
}

/// Whether `r` is what assembling the five raw configuration reads would
/// give.
pub open spec fn config_result_matches(
    r: Result<crate::config::GitConfig, crate::config::ConfigError>,
    env_editor: Option<String>,
    email: Option<Seq<char>>,
    name: Option<Seq<char>>,
    editor: Option<Seq<char>>,
    rewrite: Option<Seq<char>>,
    upstream: Option<Seq<char>>,
) -> bool {
    let spec_r = crate::config::spec_assemble_config(
        email,
        name,
        editor,
        match env_editor {
            Some(e) => Some(e@),
            None => None,
        },
        rewrite,
        upstream,
    );
    match r {
        Ok(c) => spec_r == Ok::<_, crate::config::ConfigError>(
            (c.user.email@, c.user.name@, c.core.editor@, c.yggit.default_upstream@),
        ),
        Err(e) => spec_r == Err::<(Seq<char>, Seq<char>, Seq<char>, Seq<char>), _>(e),
    }
}

/// Assemble the engine's configuration from the repository's
/// configuration store; `env_editor` is the editor the environment names,
/// used when the configuration names none.
pub fn config_from_repository(
    repository: &git2::Repository,
    env_editor: Option<String>,
) -> (r: Result<crate::config::GitConfig, crate::config::ConfigError>)
    ensures
        exists|
            email: Option<Seq<char>>,
            name: Option<Seq<char>>,
            editor: Option<Seq<char>>,
            rewrite: Option<Seq<char>>,
            upstream: Option<Seq<char>>,
        |
            config_result_matches(r, env_editor, email, name, editor, rewrite, upstream),
{
    let email = config_get_raw(repository, "user.email");
    let name = config_get_raw(repository, "user.name");
    let editor = config_get_raw(repository, "core.editor");
    let rewrite_ref = config_get_raw(repository, "notes.rewriteRef");
    let default_upstream = config_get_raw(repository, "yggit.defaultUpstream");
    let ghost ev = |o: Option<String>| -> Option<Seq<char>> {
        match o {
            Some(s) => Some(s@),
            None => None,
        }
    };
    let ghost w = (ev(email), ev(name), ev(editor), ev(rewrite_ref), ev(default_upstream));
    let r = crate::config::assemble_config(
        email,
        name,
        editor,
        env_editor,
        rewrite_ref,
        default_upstream,
    );
    proof {
        assert(config_result_matches(r, env_editor, w.0, w.1, w.2, w.3, w.4));
    }
    r
}

/// A repository with the configuration the engine needs.
pub struct GitClient {
    pub repository: git2::Repository,
    pub config: crate::config::GitConfig,
}

/// Errors of the repository operations.
#[derive(Debug, PartialEq, Eq)]
pub enum GitError {
    NoMainBranch,
    BranchNotFound(String),
    CannotListCommit,
    InvalidOid,
    HeadNotPresent,
    CannotReach(String, String),
    RemoteNotFound(String),
    NotPushed { branch: String, origin: String, reason: String },
    CommitNotFound(String),
}

impl GitClient {
    pub fn new(repository: git2::Repository, config: crate::config::GitConfig) -> (r: GitClient)
        ensures
            r.config == config,
    {
        GitClient { repository, config }
    }
}

// ---------------------------------------------------------------------
// The metadata store.
// ---------------------------------------------------------------------
/// Relies on `git2::Repository::find_note`: the message of the note
/// attached to the commit, when one is there.
#[verifier::external_body]
fn read_note_raw(client: &GitClient, id: &CommitId) -> (r: Option<String>) {
    let oid = git2::Oid::from_str(id.as_str()).ok()?;
    let note = client.repository.find_note(None, oid).ok()?;
    let msg = note.message().ok()?;
    Some(msg.to_owned())
}

/// Relies on `git2::Repository::note`: replaces the commit's note blob
/// with the given text.
#[verifier::external_body]
fn write_note_raw(client: &GitClient, id: &CommitId, text: &String) -> (r: bool) {
    let author = match git2::Signature::now(&client.config.user.name, &client.config.user.email) {
        Ok(s) => s,
        Err(_) => return false,
    };
    let oid = match git2::Oid::from_str(id.as_str()) {
        Ok(o) => o,
        Err(_) => return false,
    };
    client.repository.note(&author, &author, None, oid, text.as_str(), true).is_ok()
}

/// What deleting a note reported.
#[derive(Debug, PartialEq, Eq, Clone, Copy)]
pub enum DeleteRaw {
    Deleted,
    NotFound,
    Failed,
}

/// Relies on `git2::Repository::note_delete`: removes the commit's note;
/// reports `NotFound` when the commit had none.
#[verifier::external_body]
fn delete_note_raw(client: &GitClient, id: &CommitId) -> (r: DeleteRaw) {
    let author = match git2::Signature::now(&client.config.user.name, &client.config.user.email) {
        Ok(s) => s,
        Err(_) => return DeleteRaw::Failed,
    };
    let oid = match git2::Oid::from_str(id.as_str()) {
        Ok(o) => o,
        Err(_) => return DeleteRaw::Failed,
    };
    match client.repository.note_delete(oid, None, &author, &author) {
        Ok(()) => DeleteRaw::Deleted,
        Err(e) if e.code() == git2::ErrorCode::NotFound => DeleteRaw::NotFound,
        Err(_) => DeleteRaw::Failed,
    }
}

/// The result of a delete, as a function of what the repository reported:
/// deleting an absent record is success, not an error.
pub open spec fn spec_delete_outcome(raw: DeleteRaw) -> Result<(), DatabaseError> {
    match raw {
        DeleteRaw::Deleted => Ok(()),
        DeleteRaw::NotFound => Ok(()),
        DeleteRaw::Failed => Err(DatabaseError::CannotClose),
    }
}

/// Deletion idempotence: deleting the metadata of a commit that has no
/// record succeeds; there is nothing it could change, so it is a no-op.
pub proof fn lemma_delete_idempotent()
    ensures
        spec_delete_outcome(DeleteRaw::NotFound) == Ok::<(), DatabaseError>(()),
{
}

/// Delete a commit's metadata record. Deleting an absent record succeeds.
pub fn delete_note(client: &GitClient, id: &CommitId) -> (r: Result<(), DatabaseError>)
    ensures
        exists|raw: DeleteRaw| r == spec_delete_outcome(raw),
{
    let raw = delete_note_raw(client, id);
    let ghost raw_g = raw;
    let r = match raw {
        DeleteRaw::Deleted => Ok(()),
        DeleteRaw::NotFound => Ok(()),
        DeleteRaw::Failed => Err(DatabaseError::CannotClose),
    };
    proof {
        assert(r == spec_delete_outcome(raw_g));
    }
    r
}

/// Store a commit's metadata record. A record equal to the default is
/// pruned: the stored note is deleted instead, so that a persisted record
/// is never the default. A record whose strings cannot be encoded is
/// reported as a serialization error and nothing is written.
pub fn set_note(client: &GitClient, id: &CommitId, note: &Note) -> (r: Result<(), DatabaseError>)
    ensures
        r == Err::<(), DatabaseError>(DatabaseError::CannotSerializeValue) <==> (!note_is_default(
            note@,
        ) && !crate::codec::note_encodable(note@)),
        note_is_default(note@) ==> exists|raw: DeleteRaw| r == spec_delete_outcome(raw),
        !note_is_default(note@) && crate::codec::note_encodable(note@) ==> (r is Ok || r == Err::<
            (),
            DatabaseError,
        >(DatabaseError::CannotClose)),
{
    if note.is_default() {
        let r = delete_note(client, id);
        proof {
            assert forall|raw: DeleteRaw| spec_delete_outcome(raw) != Err::<(), DatabaseError>(
                DatabaseError::CannotSerializeValue,
            ) by {
                match raw {
                    DeleteRaw::Deleted => {},
                    DeleteRaw::NotFound => {},
                    DeleteRaw::Failed => {},
                }
            }
        }
        return r;
    }
    let text = match crate::codec::encode_note(note) {
        Some(t) => t,
        None => {
            return Err(DatabaseError::CannotSerializeValue);
        },
    };
    if write_note_raw(client, id, &text) {
        Ok(())
    } else {
        Err(DatabaseError::CannotClose)
    }
}

/// Read a commit's metadata record: `Ok(None)` when the commit has no
/// note; otherwise the note blob's canonical value. A blob whose canonical
/// line is not a record is a per-commit deserialization error.
pub fn get_note(client: &GitClient, id: &CommitId) -> (r: Result<Option<Note>, DatabaseError>)
    ensures
        match r {
            Ok(Some(ref n)) => exists|blob: Seq<char>|
                spec_note_of_blob(blob) == Ok::<_, DatabaseError>(n@),
            Ok(None) => true,
            Err(e) => e == DatabaseError::CannotDeserializeValue,
        },
{
    let blob = match read_note_raw(client, id) {
        None => {
            return Ok(None);
        },
        Some(b) => b,
    };
    match note_of_blob(&blob) {
        Ok(n) => Ok(Some(n)),
        Err(e) => Err(e),
    }
}

/// The canonical line of a note blob: because the attachment mechanism
/// concatenates blobs when annotated commits are combined, only the last
/// non-blank line carries the current value.
pub open spec fn last_nonblank(ls: Seq<Seq<char>>) -> Option<Seq<char>>
    decreases ls.len(),
{
    if ls.len() == 0 {
        None
    } else if !spec_is_blank(ls.last()) {
        Some(ls.last())
    } else {
        last_nonblank(ls.drop_last())
    }
}

pub open spec fn spec_canonical_line(s: Seq<char>) -> Option<Seq<char>> {
    last_nonblank(spec_lines_of(s))
}

/// The record a note blob holds, as a function of the blob: the canonical
/// line parsed in the wire format; a blob without one, or whose canonical
/// line is not a record, is a deserialization error.
pub open spec fn spec_note_of_blob(s: Seq<char>) -> Result<crate::note::NoteV, DatabaseError> {
    match spec_canonical_line(s) {
        None => Err(DatabaseError::CannotDeserializeValue),
        Some(l) => match spec_parse_note(l) {
            Some(n) => Ok(n),
            None => Err(DatabaseError::CannotDeserializeValue),
        },
    }
}

/// Round trip of the store: the blob that `set_note` persists for an
/// encodable record reads back as exactly that record — the encoded form
/// is one non-blank line, so it is its own canonical line. Together with
/// pruning (a default record is deleted, not written), a persisted record
/// is never the default value.
pub proof fn lemma_store_roundtrip(n: crate::note::NoteV)
    requires
        crate::codec::note_encodable(n),
    ensures
        spec_note_of_blob(crate::codec::spec_encode_note(n)) == Ok::<_, DatabaseError>(n),
{
    let s = crate::codec::spec_encode_note(n);
    crate::codec::lemma_encode_note_no_nl(n);
    assert(s.len() > 0);
    assert(s[0] == '{') by {
        assert(s[0] == crate::codec::lit_push_key()[0]);
    }
    crate::textutil::lemma_first_nl_is(s, s.len() as int);
    assert(spec_lines_of(s) == seq![s]);
    assert(!spec_is_blank(s));
    assert(seq![s].last() == s);
    assert(last_nonblank(seq![s]) == Some(s));
    crate::codec::lemma_note_codec_roundtrip(n);
}

/// The record a note blob holds: its canonical line, parsed.
pub fn note_of_blob(blob: &String) -> (r: Result<Note, DatabaseError>)
    ensures
        match r {
            Ok(ref n) => spec_note_of_blob(blob@) == Ok::<_, DatabaseError>(n@),
            Err(e) => spec_note_of_blob(blob@) == Err::<crate::note::NoteV, _>(e),
        },
{
    let chars = chars_of(blob.as_str());
    let lines = split_lines(&chars);
    let ghost ls = lines.deep_view();
    let mut j: usize = lines.len();
    proof {
        assert(ls.take(ls.len() as int) =~~= ls);
    }
    while j > 0
        invariant
            j <= lines@.len(),
            ls == lines.deep_view(),
            ls.len() == lines@.len(),
            forall|k: int| 0 <= k < ls.len() ==> ls[k] == lines@[k]@,
            ls == spec_lines_of(blob@),
            last_nonblank(ls) == last_nonblank(ls.take(j as int)),
        decreases j,
    {
        let cand = &lines[j - 1];
        if !is_blank(cand) {
            proof {
                assert(ls.take(j as int).last() == ls[j - 1]);
                assert(last_nonblank(ls.take(j as int)) == Some(ls[j - 1]));
            }
            let line = string_from_range(cand, 0, cand.len());
            proof {
                assert(line@ =~= ls[j - 1]);
            }
            match crate::codec::parse_note(line.as_str()) {
                Some(n) => {
                    return Ok(n);
                },
                None => {
                    return Err(DatabaseError::CannotDeserializeValue);
                },
            }
        }
        proof {
            assert(ls.take(j as int).last() == ls[j - 1]);
            assert(spec_is_blank(ls.take(j as int).last()));
            assert(ls.take(j as int).drop_last() =~~= ls.take(j - 1));
        }
        j -= 1;
    }
    proof {
        assert(ls.take(0) =~~= Seq::<Seq<char>>::empty());
        assert(last_nonblank(ls) is None);
    }
    Err(DatabaseError::CannotDeserializeValue)
}

// ---------------------------------------------------------------------
// The revision lister.
// ---------------------------------------------------------------------
/// Relies on `git2::Repository::head`: the commit the head points at, as
/// lowercase hex.
#[verifier::external_body]
fn head_target_raw(client: &GitClient) -> (r: Option<String>) {
    let oid = client.repository.head().ok()?.target()?;
    Some(oid.to_string())
}

/// Relies on `git2::Repository::find_branch` and
/// `Reference::peel_to_commit`: the commit the named local branch points
/// at, as lowercase hex.
#[verifier::external_body]
fn branch_commit_raw(client: &GitClient, name: &str) -> (r: Option<String>) {
    let branch = client.repository.find_branch(name, git2::BranchType::Local).ok()?;
    let commit = branch.get().peel_to_commit().ok()?;
    Some(commit.id().to_string())
}

/// Relies on `git2::Repository::find_branch`: whether the named local
/// branch exists.
#[verifier::external_body]
fn branch_exists_raw(client: &GitClient, name: &str) -> (r: bool) {
    client.repository.find_branch(name, git2::BranchType::Local).is_ok()
}

/// Relies on `git2::Branch::is_head`: whether the named local branch is
/// the checked-out one.
#[verifier::external_body]
fn branch_is_head_raw(client: &GitClient, name: &str) -> (r: bool) {
    match client.repository.find_branch(name, git2::BranchType::Local) {
        Ok(b) => b.is_head(),
        Err(_) => false,
    }
}

/// Relies on `git2::Repository::graph_descendant_of`: whether `commit`
/// descends from `ancestor`.
#[verifier::external_body]
fn graph_descendant_raw(client: &GitClient, commit: &String, ancestor: &String) -> (r: Option<
    bool,
>) {
    let c = git2::Oid::from_str(commit.as_str()).ok()?;
    let a = git2::Oid::from_str(ancestor.as_str()).ok()?;
    client.repository.graph_descendant_of(c, a).ok()
}

/// Relies on `git2::Repository::revwalk` pushed at the head: the commits
/// reachable from the head, newest first, as lowercase hex.
#[verifier::external_body]
fn revwalk_raw(client: &GitClient) -> (r: Option<Vec<String>>) {
    let mut walk = client.repository.revwalk().ok()?;
    walk.push_head().ok()?;
    let mut out: Vec<String> = Vec::new();
    for oid in walk {
        out.push(oid.ok()?.to_string());
    }
    Some(out)
}

/// Relies on `git2::Repository::find_commit` and `Commit::message`: the
/// commit's full message.
#[verifier::external_body]
fn commit_message_raw(client: &GitClient, id: &CommitId) -> (r: Option<String>) {
    let oid = git2::Oid::from_str(id.as_str()).ok()?;
    let commit = client.repository.find_commit(oid).ok()?;
    Some(commit.message().ok()?.to_owned())
}

/// A commit identity from a lowercase hex string, as the repository hands
/// them out.
pub fn commit_id_of_hex(s: &String) -> (r: Option<CommitId>)
    ensures
        match r {
            Some(ref id) => id@ == s@ && id.wf(),
            None => !crate::ids::id_wf(s@),
        },
{
    let v = chars_of(s.as_str());
    if v.len() != 40 {
        return None;
    }
    let mut i: usize = 0;
    while i < 40
        invariant
            i <= 40,
            v@ == s@,
            v@.len() == 40,
            forall|k: int| 0 <= k < i ==> crate::ids::spec_is_hex_char(#[trigger] s@[k]),
        decreases 40 - i,
    {
        if !crate::ids::is_hex_char(v[i]) {
            return None;
        }
        i += 1;
    }
    Some(CommitId::from_hex_string(s.clone()))
}

/// The title and description of a commit message: the first line, and
/// what follows it when anything does.
pub fn split_message(msg: &String) -> (r: (String, Option<String>))
    ensures
        ({
            let i = crate::textutil::first_nl(msg@);
            &&& r.0@ == msg@.take(i)
            &&& match r.1 {
                Some(ref d) => i < msg@.len() && d@ == msg@.skip(i + 1),
                None => i == msg@.len(),
            }
        }),
{
    let v = chars_of(msg.as_str());
    let mut j: usize = 0;
    while j < v.len() && v[j] != '\n'
        invariant
            j <= v@.len(),
            v@ == msg@,
            forall|k: int| 0 <= k < j ==> v@[k] != '\n',
        decreases v.len() - j,
    {
        j += 1;
    }
    proof {
        if j < v@.len() {
            crate::textutil::lemma_first_nl_is(msg@, j as int);
        } else {
            crate::textutil::lemma_first_nl_is(msg@, j as int);
        }
    }
    let title = string_from_range(&v, 0, j);
    proof {
        assert(title@ =~= msg@.take(j as int));
    }
    if j < v.len() {
        let desc = string_from_range(&v, j + 1, v.len());
        proof {
            assert(desc@ =~= msg@.skip(j + 1));
        }
        (title, Some(desc))
    } else {
        (title, None)
    }
}

/// The walked commits that sit strictly above the boundary: everything
/// before the boundary's first occurrence.
pub open spec fn spec_cut_at(ls: Seq<Seq<char>>, until: Seq<char>) -> Seq<Seq<char>>
    decreases ls.len(),
{
    if ls.len() == 0 {
        Seq::empty()
    } else if ls[0] == until {
        Seq::empty()
    } else {
        seq![ls[0]] + spec_cut_at(ls.skip(1), until)
    }
}

fn cut_at(walk: &Vec<String>, until: &String) -> (r: Vec<String>)
    ensures
        r.deep_view() == spec_cut_at(walk.deep_view(), until@),
{
    let ghost ls = walk.deep_view();
    let mut out: Vec<String> = Vec::new();
    let mut i: usize = 0;
    proof {
        assert(out.deep_view() =~~= Seq::<Seq<char>>::empty());
        assert(ls.skip(0) == ls);
    }
    while i < walk.len()
        invariant
            i <= walk@.len(),
            ls == walk.deep_view(),
            ls.len() == walk@.len(),
            forall|k: int| 0 <= k < ls.len() ==> ls[k] == walk@[k]@,
            spec_cut_at(ls, until@) == out.deep_view() + spec_cut_at(ls.skip(i as int), until@),
        decreases walk.len() - i,
    {
        proof {
            assert(ls.skip(i as int)[0] == ls[i as int]);
            assert(ls.skip(i as int).skip(1) =~~= ls.skip(i + 1));
        }
        if walk[i].eq(until) {
            proof {
                assert(spec_cut_at(ls.skip(i as int), until@) =~~= Seq::<Seq<char>>::empty());
                assert(out.deep_view() + Seq::<Seq<char>>::empty() =~~= out.deep_view());
            }
            return out;
        }
        let ghost old_out = out.deep_view();
        out.push(walk[i].clone());
        proof {
            assert(out.deep_view() =~~= old_out + seq![ls[i as int]]);
            assert(old_out + (seq![ls[i as int]] + spec_cut_at(ls.skip(i + 1), until@)) =~~= (
            old_out + seq![ls[i as int]]) + spec_cut_at(ls.skip(i + 1), until@));
        }
        i += 1;
    }
    proof {
        assert(spec_cut_at(ls.skip(ls.len() as int), until@) =~~= Seq::<Seq<char>>::empty());
        assert(out.deep_view() + Seq::<Seq<char>>::empty() =~~= out.deep_view());
    }
    out
}

/// The main branch: `main` when it exists, else `master`.
pub fn main_branch(client: &GitClient) -> (r: Option<String>)
    ensures
        match r {
            Some(ref b) => b@ == "main"@ || b@ == "master"@,
            None => true,
        },
{
    if branch_exists_raw(client, "main") {
        Some(String::from_str("main"))
    } else if branch_exists_raw(client, "master") {
        Some(String::from_str("master"))
    } else {
        None
    }
}

/// List the commits between the head and the boundary branch, oldest
/// first, each with its stored metadata. The boundary must be an ancestor
/// of the head; a commit whose record does not deserialize is listed
/// without metadata, recoverably.
pub fn list_commits(client: &GitClient, until: &String) -> (r: Result<
    Vec<crate::plan::EnhancedCommit>,
    GitError,
>)
    ensures
        match r {
            Ok(ref v) => (forall|i: int| 0 <= i < v@.len() ==> (#[trigger] v@[i]).id.wf())
                && exists|walk: Seq<Seq<char>>, boundary: Seq<char>|
                listed_ids_of(v@, walk, boundary),
            Err(GitError::BranchNotFound(ref b)) => b@ == until@,
            Err(GitError::CommitNotFound(ref h)) => crate::ids::id_wf(h@),
            Err(GitError::HeadNotPresent) => true,
            Err(GitError::CannotReach(_, _)) => true,
            Err(GitError::CannotListCommit) => true,
            Err(GitError::InvalidOid) => true,
            Err(_) => false,
        },
{
    let head = match head_target_raw(client) {
        None => {
            return Err(GitError::HeadNotPresent);
        },
        Some(h) => h,
    };
    let until_hex = match branch_commit_raw(client, until.as_str()) {
        None => {
            return Err(GitError::BranchNotFound(until.clone()));
        },
        Some(u) => u,
    };
    if !head.eq(&until_hex) {
        match graph_descendant_raw(client, &head, &until_hex) {
            Some(true) => {},
            _ => {
                return Err(GitError::CannotReach(until_hex, head));
            },
        }
    }
    let walk = match revwalk_raw(client) {
        None => {
            return Err(GitError::CannotListCommit);
        },
        Some(w) => w,
    };
    let above = cut_at(&walk, &until_hex);
    let ghost cut = above.deep_view();
    let mut out: Vec<crate::plan::EnhancedCommit> = Vec::new();
    let mut i: usize = above.len();
    while i > 0
        invariant
            i <= above@.len(),
            cut == above.deep_view(),
            cut.len() == above@.len(),
            forall|j: int| 0 <= j < cut.len() ==> cut[j] == above@[j]@,
            out@.len() == above@.len() - i,
            forall|k: int| 0 <= k < out@.len() ==> (#[trigger] out@[k]).id.wf(),
            forall|k: int|
                0 <= k < out@.len() ==> (#[trigger] out@[k]).id@ == cut[cut.len() - 1 - k],
        decreases i,
    {
        i -= 1;
        let id = match commit_id_of_hex(&above[i]) {
            None => {
                return Err(GitError::InvalidOid);
            },
            Some(id) => id,
        };
        let msg = match commit_message_raw(client, &id) {
            None => {
                proof {
                    assert(crate::ids::id_wf(above@[i as int]@));
                }
                return Err(GitError::CommitNotFound(above[i].clone()));
            },
            Some(m) => m,
        };
        let (title, description) = split_message(&msg);
        let note = match get_note(client, &id) {
            Ok(n) => n,
            Err(_) => None,
        };
        out.push(crate::plan::EnhancedCommit { id, title, description, note });
    }
    proof {
        assert(listed_ids_of(out@, walk.deep_view(), until_hex@));
    }
    Ok(out)
}

/// Whether `v` lists, oldest first, exactly the walked commits that sit
/// strictly above the boundary: the boundary-cut prefix of the walk
/// (which runs newest first), reversed.
pub open spec fn listed_ids_of(
    v: Seq<crate::plan::EnhancedCommit>,
    walk: Seq<Seq<char>>,
    boundary: Seq<char>,
) -> bool {
    let cut = spec_cut_at(walk, boundary);
    &&& v.len() == cut.len()
    &&& forall|i: int| 0 <= i < v.len() ==> (#[trigger] v[i]).id@ == cut[cut.len() - 1 - i]
}

/// Retrieve one commit with its title, description and stored metadata;
/// `None` when the repository has no such commit. A record that does not
/// deserialize is dropped, recoverably.
pub fn find_commit(client: &GitClient, id: &CommitId) -> (r: Option<crate::plan::EnhancedCommit>)
    ensures
        match r {
            Some(ref c) => c.id@ == id@,
            None => true,
        },
{
    let msg = match commit_message_raw(client, id) {
        None => {
            return None;
        },
        Some(m) => m,
    };
    let (title, description) = split_message(&msg);
    let note = match get_note(client, id) {
        Ok(n) => n,
        Err(_) => None,
    };
    Some(crate::plan::EnhancedCommit { id: id.clone(), title, description, note })
}

// ---------------------------------------------------------------------
// The branch updater.
// ---------------------------------------------------------------------
/// What moving a branch reported.
#[derive(Debug, PartialEq, Eq, Clone, Copy)]
pub enum MoveRaw {
    Moved,
    CommitNotFound,
    Failed,
}

/// Relies on `git2::Repository::branch` with force: creates or resets the
/// named local branch at the commit.
#[verifier::external_body]
fn move_branch_raw(client: &GitClient, branch: &str, id: &CommitId) -> (r: MoveRaw) {
    let oid = match git2::Oid::from_str(id.as_str()) {
        Ok(o) => o,
        Err(_) => return MoveRaw::CommitNotFound,
    };
    let commit = match client.repository.find_commit(oid) {
        Ok(c) => c,
        Err(_) => return MoveRaw::CommitNotFound,
    };
    match client.repository.branch(branch, &commit, true) {
        Ok(_) => MoveRaw::Moved,
        Err(_) => MoveRaw::Failed,
    }
}

/// Whether a move counts as success: it either succeeded, or it failed
/// only because the branch is the checked-out one already pointing at the
/// commit — a benign no-op, not a conflict.
pub open spec fn spec_move_ok(raw: MoveRaw, is_head: bool, tip_matches: bool) -> bool {
    raw == MoveRaw::Moved || (raw == MoveRaw::Failed && is_head && tip_matches)
}

/// Move (create or reset) the named local branch to the given commit.
pub fn set_branch_to_commit(client: &GitClient, branch: &String, id: &CommitId) -> (r: Result<
    (),
    GitError,
>)
    ensures
        match r {
            Ok(_) => exists|raw: MoveRaw, ih: bool, tm: bool| spec_move_ok(raw, ih, tm),
            Err(GitError::CommitNotFound(ref h)) => h@ == id@,
            Err(GitError::BranchNotFound(ref b)) => b@ == branch@,
            Err(_) => false,
        },
{
    match move_branch_raw(client, branch.as_str(), id) {
        MoveRaw::Moved => {
            proof {
                assert(spec_move_ok(MoveRaw::Moved, true, true));
            }
            Ok(())
        },
        MoveRaw::CommitNotFound => {
            let mut h = String::new();
            h.append(id.as_str());
            proof {
                assert(h@ =~= id@);
            }
            Err(GitError::CommitNotFound(h))
        },
        MoveRaw::Failed => {
            let is_head = branch_is_head_raw(client, branch.as_str());
            let tip_matches = match branch_commit_raw(client, branch.as_str()) {
                Some(tip) => {
                    let mut h = String::new();
                    h.append(id.as_str());
                    proof {
                        assert(h@ =~= id@);
                    }
                    tip.eq(&h)
                },
                None => false,
            };
            if is_head && tip_matches {
                proof {
                    assert(spec_move_ok(MoveRaw::Failed, true, true));
                }
                Ok(())
            } else {
                Err(GitError::BranchNotFound(branch.clone()))
            }
        },
    }
}

/// Move every branch that the listed commits carry a push target for, to
/// its commit.
pub fn apply(client: &GitClient, commits: &Vec<crate::plan::EnhancedCommit>) -> (r: Result<
    (),
    GitError,
>)
    ensures
        match r {
            Ok(_) => true,
            Err(GitError::CommitNotFound(_)) => true,
            Err(GitError::BranchNotFound(_)) => true,
            Err(_) => false,
        },
{
    let mut i: usize = 0;
    while i < commits.len()
        decreases commits.len() - i,
    {
        let c = &commits[i];
        match &c.note {
            Some(n) => {
                match &n.push {
                    Some(p) => {
                        match set_branch_to_commit(client, &p.branch, &c.id) {
                            Ok(_) => {},
                            Err(e) => {
                                return Err(e);
                            },
                        }
                    },
                    None => {},
                }
            },
            None => {},
        }
        i += 1;
    }
    Ok(())
}

// ---------------------------------------------------------------------
// The merge engine over the store.
// ---------------------------------------------------------------------
/// Merge the parsed instructions into the stored records under the given
/// policy, and persist each result: a record reduced to the default is
/// deleted, any other is written. A record that fails to load is treated
/// as absent; the first store error aborts the run before anything else
/// is written, so the only errors are the store's write-side ones.
pub fn merge_notes(
    client: &GitClient,
    commits: &Vec<crate::plan::Commit>,
    policy: crate::note::NoteMergingPolicy,
) -> (r: Result<(), DatabaseError>)
    ensures
        commits@.len() == 0 ==> r == Ok::<(), DatabaseError>(()),
        r != Err::<(), DatabaseError>(DatabaseError::CannotDeserializeValue),
{
    let mut i: usize = 0;
    while i < commits.len()
        invariant
            i <= commits@.len(),
        decreases commits.len() - i,
    {
        let c = &commits[i];
        let current = match get_note(client, &c.hash) {
            Ok(Some(n)) => n,
            Ok(None) => Note::default(),
            Err(_) => Note::default(),
        };
        let new_push = match &c.target {
            Some(t) => Some(
                crate::note::Push {
                    origin: match &t.origin {
                        Some(o) => Some(o.clone()),
                        None => None,
                    },
                    branch: t.branch.clone(),
                },
            ),
            None => None,
        };
        let new_tests = crate::note::clone_string_vec(&c.tests);
        let merged = crate::note::merge_note(current, new_push, new_tests, policy);
        match set_note(client, &c.hash, &merged) {
            Ok(_) => {},
            Err(e) => {
                proof {
                    if note_is_default(merged@) {
                        assert forall|raw: DeleteRaw| spec_delete_outcome(raw) != Err::<
                            (),
                            DatabaseError,
                        >(DatabaseError::CannotDeserializeValue) by {
                            match raw {
                                DeleteRaw::Deleted => {},
                                DeleteRaw::NotFound => {},
                                DeleteRaw::Failed => {},
                            }
                        }
                    }
                    assert(e != DatabaseError::CannotDeserializeValue);
                }
                return Err(e);
            },
        }
        i += 1;
    }
    Ok(())
}

/// Persist the push targets of the parsed instructions: a target-only
/// merge, so stored test lists are untouched.
pub fn save_note(client: &GitClient, commits: &Vec<crate::plan::Commit>) -> (r: Result<
    (),
    DatabaseError,
>)
    ensures
        commits@.len() == 0 ==> r == Ok::<(), DatabaseError>(()),
        r != Err::<(), DatabaseError>(DatabaseError::CannotDeserializeValue),
{
    merge_notes(client, commits, crate::note::NoteMergingPolicy::OnlyTarget)
}

// ---------------------------------------------------------------------
// The push negotiator.
// ---------------------------------------------------------------------
#[verifier::external_type_specification]
#[verifier::external_body]
pub struct ExRemote<'a>(git2::Remote<'a>);

#[verifier::external_type_specification]
#[verifier::external_body]
pub struct ExPushUpdate<'a>(git2::PushUpdate<'a>);

use crate::push::{PushMode, NegotiationResult, PushOutcome, NotPushedReason, PushedKind,
    spec_negotiate, spec_classify_push, negotiate, classify_push};

/// Relies on `git2::PushUpdate::src`: the remote's reported current
/// position of the reference, as hex; the all-zero id when the reference
/// does not exist there.
#[verifier::external_body]
fn update_src_hex(u: &git2::PushUpdate) -> (r: String) {
    u.src().to_string()
}

/// Relies on `git2::PushUpdate::dst`: the position the push asks the
/// reference to take, as hex.
#[verifier::external_body]
fn update_dst_hex(u: &git2::PushUpdate) -> (r: String) {
    u.dst().to_string()
}

/// Relies on `git2::Repository::find_reference` on the remote-tracking
/// ref: the branch's last locally recorded position on that remote.
#[verifier::external_body]
fn lookup_tracking_raw(client: &GitClient, origin: &String, branch: &String) -> (r: Option<
    String,
>) {
    let name = format!("refs/remotes/{}/{}", origin, branch);
    let commit = client.repository.find_reference(&name).ok()?.peel_to_commit().ok()?;
    Some(commit.id().to_string())
}

/// Relies on `git2::Repository::find_remote`.
#[verifier::external_body]
fn find_remote_raw<'a>(client: &'a GitClient, origin: &String) -> (r: Option<git2::Remote<'a>>) {
    client.repository.find_remote(origin.as_str()).ok()
}

/// Whether a hex id is the all-zero (absent) one.
pub fn is_zero_hex(s: &String) -> (r: bool)
    ensures
        r == spec_is_zero_hex(s@),
{
    let v = chars_of(s.as_str());
    let mut i: usize = 0;
    while i < v.len()
        invariant
            i <= v@.len(),
            v@ == s@,
            forall|k: int| 0 <= k < i ==> s@[k] == '0',
        decreases v.len() - i,
    {
        if v[i] != '0' {
            return false;
        }
        i += 1;
    }
    true
}

pub open spec fn spec_is_zero_hex(s: Seq<char>) -> bool {
    forall|k: int| 0 <= k < s.len() ==> s[k] == '0'
}

/// Whether `n` is the decision `negotiate` takes for some reported
/// remote position and fast-forward fact, under the given mode and lease.
pub open spec fn negotiation_possible(
    n: NegotiationResult,
    mode: PushMode,
    lease: Option<String>,
    src: Option<Seq<char>>,
    ff: bool,
) -> bool {
    n == spec_negotiate(
        mode,
        src,
        match lease {
            Some(l) => Some(l@),
            None => None,
        },
        ff,
    )
}

/// The negotiation decision over the transport's reported updates: no
/// update means nothing to push; otherwise the decision of `negotiate` on
/// the first update's positions.
pub fn decide_push(
    client: &GitClient,
    mode: PushMode,
    lease: &Option<String>,
    updates: &[git2::PushUpdate],
) -> (r: NegotiationResult)
    ensures
        r == NegotiationResult::NoPushNeeded || exists|src: Option<Seq<char>>, ff: bool|
            negotiation_possible(r, mode, *lease, src, ff),
{
    if updates.len() == 0 {
        return NegotiationResult::NoPushNeeded;
    }
    let u = vstd::slice::slice_index_get(updates, 0);
    let src_hex = update_src_hex(u);
    let dst_hex = update_dst_hex(u);
    let src_is_zero = is_zero_hex(&src_hex);
    let ff = if !src_is_zero && !src_hex.eq(&dst_hex) {
        match graph_descendant_raw(client, &dst_hex, &src_hex) {
            Some(b) => b,
            None => false,
        }
    } else {
        false
    };
    let ghost ffg = ff;
    let src_opt = if src_is_zero {
        None
    } else {
        Some(src_hex)
    };
    let ghost srcg = match src_opt {
        Some(ref s) => Some(s@),
        None => None,
    };
    let r = negotiate(mode, &src_opt, lease, ff);
    proof {
        assert(negotiation_possible(r, mode, *lease, srcg, ffg));
    }
    r
}

#[verifier::external_type_specification]
#[verifier::external_body]
#[verifier::reject_recursive_types(T)]
pub struct ExMutex<T: ?Sized>(std::sync::Mutex<T>);

#[verifier::external_type_specification]
#[verifier::external_body]
pub struct ExGit2Error(git2::Error);

/// Relies on `std::sync::Mutex::lock` and `git2::Error::from_str`: records
/// the negotiation decision in the cell and turns it into the callback's
/// result — `Err` cancels the push before any transfer.
#[verifier::external_body]
fn record_negotiation(
    d: NegotiationResult,
    cell: &std::sync::Mutex<Option<NegotiationResult>>,
) -> (r: Result<(), git2::Error>) {
    let ok = d.accepted();
    *cell.lock().unwrap() = Some(d);
    if ok { Ok(()) } else { Err(git2::Error::from_str("negotiation rejected")) }
}

/// Relies on `git2::Remote::push` with a `push_negotiation` callback: the
/// callback runs `decide_push` once, before any transfer; its decision is
/// captured into a lock-guarded cell owned by this adapter and read only
/// after the push call returns. The decision is `None` when the transport
/// failed before negotiating; the second component is the transport
/// result with the transport's own message.
#[verifier::external_body]
fn raw_push<'a>(
    client: &GitClient,
    remote: &mut git2::Remote<'a>,
    mode: PushMode,
    lease: &Option<String>,
    refspec: &str,
) -> (r: (Option<NegotiationResult>, Result<(), String>))
    ensures
        match r.0 {
            None => true,
            Some(n) => n == NegotiationResult::NoPushNeeded || exists|
                src: Option<Seq<char>>,
                ff: bool,
            | negotiation_possible(n, mode, *lease, src, ff),
        },
{
    let auth = auth_git2::GitAuthenticator::new();
    let gc = client.repository.config();
    let cell = std::sync::Mutex::new(None);
    let mut cbs = git2::RemoteCallbacks::new();
    if let Ok(g) = &gc {
        cbs.credentials(auth.credentials(g));
    }
    cbs.push_negotiation(|ups| record_negotiation(decide_push(client, mode, lease, ups), &cell));
    let mut opts = git2::PushOptions::new();
    opts.remote_callbacks(cbs);
    let res = remote.push(&[refspec], Some(&mut opts)).map_err(|e| e.message().to_string());
    drop(opts);
    (cell.into_inner().unwrap(), res)
}

pub open spec fn spec_refspec(mode: PushMode, branch: Seq<char>) -> Seq<char> {
    match mode {
        PushMode::Normal => "refs/heads/"@ + branch,
        _ => "+refs/heads/"@ + branch,
    }
}

/// The refspec of a push: the branch's full ref. Both force modes mark
/// the transfer as forced — for force-with-lease the safety lives in the
/// negotiation, and an accepted overwrite must then go through; a plain
/// push leaves the transfer unforced.
pub fn make_refspec(mode: PushMode, branch: &String) -> (r: String)
    ensures
        r@ == spec_refspec(mode, branch@),
{
    let mut out = match mode {
        PushMode::Normal => {
            let s = String::from_str("refs/heads/");
            s
        },
        _ => {
            let s = String::from_str("+refs/heads/");
            s
        },
    };
    out.append(branch.as_str());
    out
}

/// Whether a negotiation decision can arise at all under the given mode:
/// nothing to update, or the decision `negotiate` takes for some lease,
/// reported position and fast-forward fact. A decision foreign to the
/// mode — a divergence under plain force, say — is not possible.
pub open spec fn neg_possible_for_mode(n: NegotiationResult, mode: PushMode) -> bool {
    n == NegotiationResult::NoPushNeeded || exists|
        lease: Option<String>,
        src: Option<Seq<char>>,
        ff: bool,
    | negotiation_possible(n, mode, lease, src, ff)
}

/// Whether a push outcome can arise under the given mode: the
/// classification of a decision possible under that mode (or of a
/// transport failure before any negotiation) with some transport result.
pub open spec fn outcome_possible(o: crate::push::PushOutcomeV, mode: PushMode) -> bool {
    exists|neg: Option<NegotiationResult>, t: Result<(), Seq<char>>|
        o == spec_classify_push(neg, t) && match neg {
            None => true,
            Some(n) => neg_possible_for_mode(n, mode),
        }
}

/// Push one branch to one remote under the given mode: look up the lease,
/// run the transport with the negotiation callback, and classify what
/// happened. The outcome is one that the mode can produce. Failure is
/// per-branch: the caller goes on with its other branches.
pub fn push_branch(client: &GitClient, origin: &String, branch: &String, mode: PushMode) -> (r:
    Result<PushOutcome, GitError>)
    ensures
        match r {
            Ok(ref o) => outcome_possible(o@, mode),
            Err(GitError::RemoteNotFound(ref o)) => o@ == origin@,
            Err(_) => false,
        },
{
    let lease = lookup_tracking_raw(client, origin, branch);
    let refspec = make_refspec(mode, branch);
    let mut remote = match find_remote_raw(client, origin) {
        None => {
            return Err(GitError::RemoteNotFound(origin.clone()));
        },
        Some(rem) => rem,
    };
    let ghost leaseg = lease;
    let (neg, transport) = raw_push(client, &mut remote, mode, &lease, refspec.as_str());
    let ghost negg = neg;
    let ghost tg: Result<(), Seq<char>> = match transport {
        Ok(u) => Ok(u),
        Err(ref m) => Err(m@),
    };
    let outcome = classify_push(neg, transport);
    proof {
        assert(outcome@ == spec_classify_push(negg, tg));
        match negg {
            None => {},
            Some(n) => {
                if n != NegotiationResult::NoPushNeeded {
                    let (src, ff): (Option<Seq<char>>, bool) = choose|
                        src: Option<Seq<char>>,
                        ff: bool,
                    | negotiation_possible(n, mode, leaseg, src, ff);
                    assert(negotiation_possible(n, mode, leaseg, src, ff));
                }
                assert(neg_possible_for_mode(n, mode));
            },
        }
        assert(outcome_possible(outcome@, mode));
    }
    Ok(outcome)
}

/// A push outcome folded back into a plain result: an update that was
/// performed, or was not needed, is success; everything else is an error
/// naming the branch and remote.
pub fn outcome_to_result(outcome: PushOutcome, origin: &String, branch: &String) -> (r: Result<
    (),
    GitError,
>)
    ensures
        match r {
            Ok(_) => outcome@ is Pushed || outcome@ is NotPushedNoUpdateNeeded,
            Err(GitError::NotPushed { branch: ref b, origin: ref o, reason: _ }) => b@ == branch@
                && o@ == origin@ && !(outcome@ is Pushed) && !(outcome@ is NotPushedNoUpdateNeeded),
            Err(_) => false,
        },
{
    match outcome {
        PushOutcome::Pushed(_) => Ok(()),
        PushOutcome::NotPushed(reason) => match reason {
            NotPushedReason::NoUpdateNeeded => Ok(()),
            NotPushedReason::Diverged => Err(
                GitError::NotPushed {
                    branch: branch.clone(),
                    origin: origin.clone(),
                    reason: String::from_str(
                        "the origin on the server is not the same as the local one",
                    ),
                },
            ),
            NotPushedReason::UnimplementedMode => Err(
                GitError::NotPushed {
                    branch: branch.clone(),
                    origin: origin.clone(),
                    reason: String::from_str("a plain push must be a fast-forward"),
                },
            ),
            NotPushedReason::TransportError(m) => Err(
                GitError::NotPushed { branch: branch.clone(), origin: origin.clone(), reason: m },
            ),
        },
    }
}

/// `git push --force-with-lease` of one branch.
pub fn push_force_with_lease(client: &GitClient, origin: &String, branch: &String) -> (r: Result<
    (),
    GitError,
>)
    ensures
        match r {
            Ok(_) => true,
            Err(GitError::NotPushed { branch: ref b, origin: ref o, reason: _ }) => b@ == branch@
                && o@ == origin@,
            Err(GitError::RemoteNotFound(ref o)) => o@ == origin@,
            Err(_) => false,
        },
{
    let outcome = match push_branch(client, origin, branch, PushMode::ForceWithLease) {
        Ok(o) => o,
        Err(e) => {
            return Err(e);
        },
    };
    outcome_to_result(outcome, origin, branch)
}

/// `git push --force` of one branch.
pub fn push_force(client: &GitClient, origin: &String, branch: &String) -> (r: Result<
    (),
    GitError,
>)
    ensures
        match r {
            Ok(_) => true,
            Err(GitError::NotPushed { branch: ref b, origin: ref o, reason: _ }) => b@ == branch@
                && o@ == origin@,
            Err(GitError::RemoteNotFound(ref o)) => o@ == origin@,
            Err(_) => false,
        },
{
    let outcome = match push_branch(client, origin, branch, PushMode::Force) {
        Ok(o) => o,
        Err(e) => {
            return Err(e);
        },
    };
    outcome_to_result(outcome, origin, branch)
}

/// `git push` of one branch: accepted only as a fast-forward.
pub fn push(client: &GitClient, origin: &String, branch: &String) -> (r: Result<(), GitError>)
    ensures
        match r {
            Ok(_) => true,
            Err(GitError::NotPushed { branch: ref b, origin: ref o, reason: _ }) => b@ == branch@
                && o@ == origin@,
            Err(GitError::RemoteNotFound(ref o)) => o@ == origin@,
            Err(_) => false,
        },
{
    let outcome = match push_branch(client, origin, branch, PushMode::Normal) {
        Ok(o) => o,
        Err(e) => {
            return Err(e);
        },
    };
    outcome_to_result(outcome, origin, branch)
}

// ---------------------------------------------------------------------
// Per-branch reporting.
// ---------------------------------------------------------------------
/// One branch's outcome in the final report.
#[derive(Debug, PartialEq, Eq)]
pub struct BranchReport {
    pub branch: String,
    pub origin: Option<String>,
    pub outcome: PushOutcome,
}

/// The push targets the listed commits carry, in order.
pub open spec fn spec_targets(entries: Seq<crate::plan::EntryV>) -> Seq<crate::note::PushV>
    decreases entries.len(),
{
    if entries.len() == 0 {
        Seq::empty()
    } else {
        (match entries[0].note {
            Some(n) => match n.push {
                Some(p) => seq![p],
                None => Seq::empty(),
            },
            None => Seq::empty(),
        }) + spec_targets(entries.skip(1))
    }
}

proof fn lemma_spec_targets_snoc(entries: Seq<crate::plan::EntryV>, e: crate::plan::EntryV)
    ensures
        spec_targets(entries.push(e)) == spec_targets(entries) + (match e.note {
            Some(n) => match n.push {
                Some(p) => seq![p],
                None => Seq::empty(),
            },
            None => Seq::empty(),
        }),
    decreases entries.len(),
{
    let tail: Seq<crate::note::PushV> = match e.note {
        Some(n) => match n.push {
            Some(p) => seq![p],
            None => Seq::empty(),
        },
        None => Seq::empty(),
    };
    if entries.len() == 0 {
        assert(entries.push(e)[0] == e);
        assert(entries.push(e).skip(1) =~~= Seq::<crate::plan::EntryV>::empty());
        assert(spec_targets(Seq::<crate::plan::EntryV>::empty())
            == Seq::<crate::note::PushV>::empty());
        assert(spec_targets(entries.push(e)) == tail + Seq::<crate::note::PushV>::empty());
        assert(tail + Seq::<crate::note::PushV>::empty() =~~= Seq::<crate::note::PushV>::empty()
            + tail);
    } else {
        lemma_spec_targets_snoc(entries.skip(1), e);
        assert(entries.push(e)[0] == entries[0]);
        assert(entries.push(e).skip(1) =~~= entries.skip(1).push(e));
        let head: Seq<crate::note::PushV> = match entries[0].note {
            Some(n) => match n.push {
                Some(p) => seq![p],
                None => Seq::empty(),
            },
            None => Seq::empty(),
        };
        assert(head + (spec_targets(entries.skip(1)) + tail) =~~= (head + spec_targets(
            entries.skip(1),
        )) + tail);
    }
}

/// Whether a report's remote field carries exactly the target's named
/// origin.
pub open spec fn origin_matches(report: Option<String>, target: Option<Seq<char>>) -> bool {
    match report {
        Some(o) => target == Some(o@),
        None => target is None,
    }
}

/// One report per target, in order, carrying the target's branch and
/// named origin.
pub open spec fn reports_match(reports: Seq<BranchReport>, targets: Seq<crate::note::PushV>) -> bool {
    &&& reports.len() == targets.len()
    &&& forall|k: int|
        0 <= k < reports.len() ==> (#[trigger] reports[k]).branch@ == targets[k].branch
    &&& forall|k: int|
        0 <= k < reports.len() ==> origin_matches((#[trigger] reports[k]).origin, targets[k].origin)
}

/// The transport mode of the synchronization flows: a plain force push
/// when asked, force-with-lease otherwise.
pub open spec fn spec_cli_mode(force: bool) -> PushMode {
    if force {
        PushMode::Force
    } else {
        PushMode::ForceWithLease
    }
}

pub fn cli_mode(force: bool) -> (m: PushMode)
    ensures
        m == spec_cli_mode(force),
{
    if force {
        PushMode::Force
    } else {
        PushMode::ForceWithLease
    }
}

/// Push every branch that the listed commits carry a target for, under
/// the flows' transport mode. Each branch is attempted and reported
/// independently: one report per target, in order, whatever the other
/// branches' outcomes — a failed negotiation or transfer never prevents
/// the remaining pushes — and each outcome is one the mode can produce.
pub fn push_all(
    client: &GitClient,
    commits: &Vec<crate::plan::EnhancedCommit>,
    force: bool,
) -> (r: Vec<BranchReport>)
    ensures
        reports_match(r@, spec_targets(commits.deep_view())),
        forall|k: int|
            0 <= k < r@.len() ==> outcome_possible(
                (#[trigger] r@[k]).outcome@,
                spec_cli_mode(force),
            ),
{
    let ghost entries = commits.deep_view();
    let mut reports: Vec<BranchReport> = Vec::new();
    let mut i: usize = 0;
    proof {
        assert(entries.take(0) =~~= Seq::<crate::plan::EntryV>::empty());
        assert(spec_targets(entries.take(0)) =~~= Seq::<crate::note::PushV>::empty());
    }
    while i < commits.len()
        invariant
            i <= commits@.len(),
            entries == commits.deep_view(),
            entries.len() == commits@.len(),
            forall|k: int|
                0 <= k < entries.len() ==> entries[k] == #[trigger] commits@[k].deep_view(),
            reports@.len() == spec_targets(entries.take(i as int)).len(),
            forall|k: int|
                0 <= k < reports@.len() ==> (#[trigger] reports@[k]).branch@ == spec_targets(
                    entries.take(i as int),
                )[k].branch,
            forall|k: int|
                0 <= k < reports@.len() ==> origin_matches(
                    (#[trigger] reports@[k]).origin,
                    spec_targets(entries.take(i as int))[k].origin,
                ),
            forall|k: int|
                0 <= k < reports@.len() ==> outcome_possible(
                    (#[trigger] reports@[k]).outcome@,
                    spec_cli_mode(force),
                ),
        decreases commits.len() - i,
    {
        let c = &commits[i];
        let ghost e = entries[i as int];
        proof {
            assert(entries.take(i + 1) =~~= entries.take(i as int).push(e));
            lemma_spec_targets_snoc(entries.take(i as int), e);
        }
        match &c.note {
            Some(n) => {
                match &n.push {
                    Some(p) => {
                        let origin_name = match &p.origin {
                            Some(o) => o.clone(),
                            None => client.config.yggit.default_upstream.clone(),
                        };
                        let mode = cli_mode(force);
                        let outcome = match push_branch(client, &origin_name, &p.branch, mode) {
                            Ok(o) => o,
                            Err(_) => {
                                let msg = String::from_str("remote not found");
                                let ghost msgv = msg@;
                                let fallback = PushOutcome::NotPushed(
                                    NotPushedReason::TransportError(msg),
                                );
                                proof {
                                    assert(fallback@ == spec_classify_push(
                                        None,
                                        Err::<(), Seq<char>>(msgv),
                                    ));
                                    assert(outcome_possible(fallback@, mode));
                                }
                                fallback
                            },
                        };
                        let report = BranchReport {
                            branch: p.branch.clone(),
                            origin: match &p.origin {
                                Some(o) => Some(o.clone()),
                                None => None,
                            },
                            outcome,
                        };
                        reports.push(report);
                    },
                    None => {},
                }
            },
            None => {},
        }
        i += 1;
    }
    proof {
        assert(entries.take(entries.len() as int) =~~= entries);
    }
    reports
}

/// List the commits above the main branch and push every branch their
/// records target, under the flows' transport mode. One report per
/// target, in order; a per-branch failure is a report, never an error, so
/// the only errors are the listing's own.
pub fn push_from_notes(client: &GitClient, force: bool) -> (r: Result<Vec<BranchReport>, GitError>)
    ensures
        match r {
            Ok(ref reports) => exists|entries: Seq<crate::plan::EntryV>|
                #[trigger] reports_match(reports@, spec_targets(entries)),
            Err(GitError::NotPushed { branch: _, origin: _, reason: _ }) => false,
            Err(GitError::RemoteNotFound(_)) => false,
            Err(_) => true,
        },
        r is Ok ==> forall|k: int|
            0 <= k < r.unwrap()@.len() ==> outcome_possible(
                (#[trigger] r.unwrap()@[k]).outcome@,
                spec_cli_mode(force),
            ),
{
    let main = match main_branch(client) {
        None => {
            return Err(GitError::NoMainBranch);
        },
        Some(m) => m,
    };
    let commits = match list_commits(client, &main) {
        Ok(c) => c,
        Err(e) => {
            return Err(e);
        },
    };
    let reports = push_all(client, &commits, force);
    proof {
        assert(reports_match(reports@, spec_targets(commits.deep_view())));
    }
    Ok(reports)
}

} // verus!
