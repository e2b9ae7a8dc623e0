use vstd::prelude::*;

verus! {

// The metadata record riding on a commit: an optional push target and a
// list of validation commands. A record equal to the default (no target, no
// tests) is never persisted: the store deletes instead of writing it.
/// A push target: the branch to push to, and the remote it lives on when
/// one was named.
#[derive(Debug, PartialEq, Eq)]
pub struct Push {
    pub origin: Option<String>,
    pub branch: String,
}

/// The metadata record of one commit.
#[derive(Debug, PartialEq, Eq)]
pub struct Note {
    pub push: Option<Push>,
    pub tests: Vec<String>,
}

pub ghost struct PushV {
    pub origin: Option<Seq<char>>,
    pub branch: Seq<char>,
}

pub ghost struct NoteV {
    pub push: Option<PushV>,
    pub tests: Seq<Seq<char>>,
}

impl View for Push {
    type V = PushV;

    open spec fn view(&self) -> PushV {
        PushV {
            origin: match self.origin {
                Some(o) => Some(o@),
                None => None,
            },
            branch: self.branch@,
        }
    }
}

impl View for Note {
    type V = NoteV;

    open spec fn view(&self) -> NoteV {
        NoteV {
            push: match self.push {
                Some(p) => Some(p@),
                None => None,
            },
            tests: self.tests.deep_view(),
        }
    }
}

pub open spec fn spec_note_default() -> NoteV {
    NoteV { push: None, tests: Seq::empty() }
}

pub open spec fn note_is_default(n: NoteV) -> bool {
    n.push is None && n.tests.len() == 0
}

impl Clone for Push {
    fn clone(&self) -> (r: Self)
        ensures
            r@ == self@,
    {
        Push {
            origin: match &self.origin {
                Some(o) => Some(o.clone()),
                None => None,
            },
            branch: self.branch.clone(),
        }
    }
}

/// A copy of a list of strings, with the same contents.
pub fn clone_string_vec(v: &Vec<String>) -> (r: Vec<String>)
    ensures
        r.deep_view() == v.deep_view(),
{
    let mut r: Vec<String> = Vec::new();
    let mut i: usize = 0;
    while i < v.len()
        invariant
            i <= v@.len(),
            r.deep_view() =~~= v.deep_view().take(i as int),
        decreases v.len() - i,
    {
        let ghost old_r = r.deep_view();
        r.push(v[i].clone());
        proof {
            assert(r.deep_view() =~~= old_r.push(v.deep_view()[i as int]));
            assert(r.deep_view() =~~= v.deep_view().take(i + 1));
        }
        i += 1;
    }
    proof {
        assert(r.deep_view() =~~= v.deep_view());
    }
    r
}

impl Clone for Note {
    fn clone(&self) -> (r: Self)
        ensures
            r@ == self@,
    {
        Note {
            push: match &self.push {
                Some(p) => Some(p.clone()),
                None => None,
            },
            tests: clone_string_vec(&self.tests),
        }
    }
}

impl Default for Note {
    /// The all-empty record: no push target, no tests. Absence of a
    /// persisted record means exactly this value.
    fn default() -> (r: Note)
        ensures
            r@ == spec_note_default(),
    {
        let r = Note { push: None, tests: Vec::new() };
        proof {
            assert(r@.tests =~~= Seq::<Seq<char>>::empty());
        }
        r
    }
}

impl Note {
    /// Whether this record equals the default value. The store never
    /// persists such a record.
    pub fn is_default(&self) -> (r: bool)
        ensures
            r == note_is_default(self@),
    {
        match &self.push {
            Some(_) => false,
            None => self.tests.len() == 0,
        }
    }
}

/// Which fields of a record a merge is allowed to overwrite. Commands that
/// edit destinations use `OnlyTarget`; commands that edit validation steps
/// use `OnlyTests`; neither may clobber the other's state.
#[derive(Debug, PartialEq, Eq, Clone, Copy)]
pub enum NoteMergingPolicy {
    OnlyTarget,
    OnlyTests,
}

/// The merged record: the field the policy covers is replaced by the
/// instruction's value (including clearing); the other field is kept.
pub open spec fn spec_merge(
    cur: NoteV,
    new_push: Option<PushV>,
    new_tests: Seq<Seq<char>>,
    policy: NoteMergingPolicy,
) -> NoteV {
    match policy {
        NoteMergingPolicy::OnlyTarget => NoteV { push: new_push, tests: cur.tests },
        NoteMergingPolicy::OnlyTests => NoteV { push: cur.push, tests: new_tests },
    }
}

/// Merge one instruction into the current record under the given policy.
pub fn merge_note(
    current: Note,
    new_push: Option<Push>,
    new_tests: Vec<String>,
    policy: NoteMergingPolicy,
) -> (r: Note)
    ensures
        r@ == spec_merge(
            current@,
            match new_push {
                Some(p) => Some(p@),
                None => None,
            },
            new_tests.deep_view(),
            policy,
        ),
{
    match policy {
        NoteMergingPolicy::OnlyTarget => Note { push: new_push, tests: current.tests },
        NoteMergingPolicy::OnlyTests => Note { push: current.push, tests: new_tests },
    }
}

/// Merge policy isolation: a target-only merge never changes the stored
/// test list, and a tests-only merge never changes the stored push target,
/// whatever the instruction says.
pub proof fn lemma_merge_policy_isolation(
    cur: NoteV,
    new_push: Option<PushV>,
    new_tests: Seq<Seq<char>>,
)
    ensures
        spec_merge(cur, new_push, new_tests, NoteMergingPolicy::OnlyTarget).tests == cur.tests,
        spec_merge(cur, new_push, new_tests, NoteMergingPolicy::OnlyTests).push == cur.push,
{
}

/// Errors of the metadata store. Serialization failure is local to one
/// commit: callers skip the record or abort, the run is not poisoned.
#[derive(Debug, PartialEq, Eq, Clone, Copy)]
pub enum DatabaseError {
    CannotSerializeValue,
    CannotDeserializeValue,
    CannotClose,
}

} // verus!
