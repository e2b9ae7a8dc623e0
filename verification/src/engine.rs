use vstd::prelude::*;

verus! {

use crate::client::{GitClient, GitError, BranchReport};
use crate::note::{Note, DatabaseError};
use crate::plan::{EnhancedCommit, Commit, spec_render, spec_instructions_of, entry_of_instr,
    commits_to_string, instruction_from_string};

// The synchronization flows: render the commit list as an editable plan,
// and take an edited plan back — persist its targets, move the local
// branches, push. The plan edit itself is an external, user-driven step;
// these functions take the edited text as a value.
#[derive(Debug, PartialEq, Eq)]
pub enum CoreError {
    GitError(GitError),
    DatabaseError(DatabaseError),
    ParserError(crate::parser::ParserError),
}

/// The plan text of the commits above `onto` (or above the main branch):
/// what the user edits.
pub fn show(client: &GitClient, onto: Option<String>) -> (r: Result<String, CoreError>)
    ensures
        match r {
            Ok(ref s) => exists|entries: Seq<crate::plan::EntryV>| s@ == spec_render(entries),
            Err(CoreError::GitError(_)) => true,
            Err(_) => false,
        },
{
    let boundary = match onto {
        Some(b) => b,
        None => match crate::client::main_branch(client) {
            Some(m) => m,
            None => {
                return Err(CoreError::GitError(GitError::NoMainBranch));
            },
        },
    };
    let commits = match crate::client::list_commits(client, &boundary) {
        Ok(c) => c,
        Err(e) => {
            return Err(CoreError::GitError(e));
        },
    };
    let text = commits_to_string(&commits);
    Ok(text)
}

/// A minimal commit entry carrying exactly what an instruction says, for
/// re-rendering or pushing a parsed plan.
pub fn entry_of_instruction(c: Commit) -> (r: EnhancedCommit)
    ensures
        r@ == entry_of_instr(c@),
{
    EnhancedCommit {
        id: c.hash,
        title: c.title,
        description: None,
        note: Some(Note { push: match c.target {
            Some(t) => Some(crate::note::Push { origin: t.origin, branch: t.branch }),
            None => None,
        }, tests: c.tests }),
    }
}

/// Parse an edited plan. The whole plan is rejected on any malformed
/// line: nothing is merged, written, moved or pushed. The line grammar
/// runs first so that a rejection names the offending line; grouping the
/// accepted lines can still fail, on an annotation line with no commit
/// line above it.
fn parse_plan(content: String) -> (r: Result<Vec<Commit>, CoreError>)
    ensures
        match r {
            Ok(ref instrs) => spec_instructions_of(content@) == Some(instrs.deep_view()),
            Err(CoreError::ParserError(_)) => spec_instructions_of(content@) is None,
            Err(_) => false,
        },
{
    match crate::parser::Parser::parse_file(content.as_str()) {
        Err(e) => {
            return Err(CoreError::ParserError(e));
        },
        Ok(_) => {},
    }
    match instruction_from_string(content) {
        Some(instrs) => Ok(instrs),
        None => Err(
            CoreError::ParserError(crate::parser::ParserError::IsNotLine { line: String::new() }),
        ),
    }
}

/// Take an edited plan: persist its push targets (a target-only merge, so
/// stored test lists are untouched) and move every targeted local branch
/// to its commit. Nothing is pushed.
pub fn apply(client: &GitClient, content: String) -> (r: Result<Vec<Commit>, CoreError>)
    ensures
        match r {
            Ok(ref instrs) => spec_instructions_of(content@) == Some(instrs.deep_view()),
            Err(CoreError::ParserError(_)) => spec_instructions_of(content@) is None,
            Err(_) => true,
        },
{
    let instrs = match parse_plan(content) {
        Ok(i) => i,
        Err(e) => {
            return Err(e);
        },
    };
    match crate::client::save_note(client, &instrs) {
        Ok(_) => {},
        Err(e) => {
            return Err(CoreError::DatabaseError(e));
        },
    }
    let mut i: usize = 0;
    while i < instrs.len()
        decreases instrs.len() - i,
    {
        let c = &instrs[i];
        match &c.target {
            Some(t) => {
                match crate::client::set_branch_to_commit(client, &t.branch, &c.hash) {
                    Ok(_) => {},
                    Err(e) => {
                        return Err(CoreError::GitError(e));
                    },
                }
            },
            None => {},
        }
        i += 1;
    }
    Ok(instrs)
}

/// Whether `reports` is the per-target report list of the plan that
/// `content` parses to: one report per targeted instruction, in order,
/// carrying the instruction's branch and named origin.
pub open spec fn plan_reported(
    content: Seq<char>,
    instrs: Seq<crate::plan::InstrV>,
    reports: Seq<BranchReport>,
) -> bool {
    &&& spec_instructions_of(content) == Some(instrs)
    &&& crate::client::reports_match(
        reports,
        crate::client::spec_targets(
            instrs.map_values(|iv: crate::plan::InstrV| entry_of_instr(iv)),
        ),
    )
}

/// Take an edited plan and synchronize: persist its push targets (a
/// target-only merge), then move every targeted local branch and push it
/// — a plain force push when asked, force-with-lease otherwise — and
/// report each branch's outcome independently. With `no_push` only the
/// metadata is persisted: no branch is moved and nothing is pushed.
pub fn push(client: &GitClient, content: String, force: bool, no_push: bool) -> (r: Result<
    Vec<BranchReport>,
    CoreError,
>)
    ensures
        match r {
            Ok(ref reports) => {
                &&& (no_push ==> reports@.len() == 0)
                &&& (!no_push ==> exists|instrs: Seq<crate::plan::InstrV>|
                    plan_reported(content@, instrs, reports@))
                &&& forall|k: int|
                    0 <= k < reports@.len() ==> crate::client::outcome_possible(
                        (#[trigger] reports@[k]).outcome@,
                        crate::client::spec_cli_mode(force),
                    )
            },
            Err(CoreError::ParserError(_)) => spec_instructions_of(content@) is None,
            Err(_) => true,
        },
{
    let instrs = match parse_plan(content) {
        Ok(i) => i,
        Err(e) => {
            return Err(e);
        },
    };
    match crate::client::save_note(client, &instrs) {
        Ok(_) => {},
        Err(e) => {
            return Err(CoreError::DatabaseError(e));
        },
    }
    if no_push {
        return Ok(Vec::new());
    }
    let mut i: usize = 0;
    while i < instrs.len()
        decreases instrs.len() - i,
    {
        let c = &instrs[i];
        match &c.target {
            Some(t) => {
                match crate::client::set_branch_to_commit(client, &t.branch, &c.hash) {
                    Ok(_) => {},
                    Err(e) => {
                        return Err(CoreError::GitError(e));
                    },
                }
            },
            None => {},
        }
        i += 1;
    }
    let ghost full = instrs.deep_view();
    let mut entries: Vec<EnhancedCommit> = Vec::new();
    let mut j: usize = 0;
    proof {
        assert(entries.deep_view() =~~= full.take(0).map_values(
            |iv: crate::plan::InstrV| entry_of_instr(iv),
        ));
    }
    while j < instrs.len()
        invariant
            j <= instrs@.len(),
            full == instrs.deep_view(),
            full.len() == instrs@.len(),
            forall|m: int| 0 <= m < full.len() ==> full[m] == #[trigger] instrs@[m].deep_view(),
            entries.deep_view() == full.take(j as int).map_values(
                |iv: crate::plan::InstrV| entry_of_instr(iv),
            ),
        decreases instrs.len() - j,
    {
        let ghost before = entries.deep_view();
        let e = entry_of_instruction(instrs[j].clone());
        entries.push(e);
        proof {
            assert(entries.deep_view() =~~= before.push(entry_of_instr(full[j as int])));
            assert(entries.deep_view() =~~= full.take(j + 1).map_values(
                |iv: crate::plan::InstrV| entry_of_instr(iv),
            ));
        }
        j += 1;
    }
    let reports = crate::client::push_all(client, &entries, force);
    proof {
        assert(full.take(full.len() as int) =~~= full);
        assert(entries.deep_view() =~~= full.map_values(
            |iv: crate::plan::InstrV| entry_of_instr(iv),
        ));
        assert(plan_reported(content@, full, reports@));
    }
    Ok(reports)
}

} // verus!
