use vstd::prelude::*;

verus! {

use crate::ids::{CommitId, id_wf};
use crate::note::{Note, NoteV, PushV, Push};
use crate::textutil::{spec_join_lines, no_nl};
use crate::parser::{LineV, first_colon};
use vstd::string::StringExecFns;

// A plan is the editable text form of the commit list: for every commit,
// in order, its commit line, then (when metadata is present) its target
// line and its test lines, then a separating blank line. Parsing an edited
// plan yields one instruction per commit line. `lemma_plan_roundtrip`
// states the round-trip law between the two.
/// A push target as written in a plan: `[origin:]branch`.
#[derive(Debug, PartialEq, Eq)]
pub struct Target {
    pub origin: Option<String>,
    pub branch: String,
}

impl View for Target {
    type V = PushV;

    open spec fn view(&self) -> PushV {
        PushV {
            origin: match self.origin {
                Some(o) => Some(o@),
                None => None,
            },
            branch: self.branch@,
        }
    }
}

impl Clone for Target {
    fn clone(&self) -> (r: Self)
        ensures
            r@ == self@,
    {
        Target {
            origin: match &self.origin {
                Some(o) => Some(o.clone()),
                None => None,
            },
            branch: self.branch.clone(),
        }
    }
}

/// One instruction of a parsed plan: a commit identity, the optional push
/// target written under it, and its validation commands.
#[derive(Debug, PartialEq, Eq)]
pub struct Commit {
    pub hash: CommitId,
    pub title: String,
    pub target: Option<Target>,
    pub tests: Vec<String>,
}

pub ghost struct InstrV {
    pub hash: Seq<char>,
    pub title: Seq<char>,
    pub target: Option<PushV>,
    pub tests: Seq<Seq<char>>,
}

impl View for Commit {
    type V = InstrV;

    open spec fn view(&self) -> InstrV {
        InstrV {
            hash: self.hash@,
            title: self.title@,
            target: match self.target {
                Some(t) => Some(t@),
                None => None,
            },
            tests: self.tests.deep_view(),
        }
    }
}

impl DeepView for Commit {
    type V = InstrV;

    open spec fn deep_view(&self) -> InstrV {
        self.view()
    }
}

impl Clone for Commit {
    fn clone(&self) -> (r: Self)
        ensures
            r@ == self@,
    {
        let r = Commit {
            hash: self.hash.clone(),
            title: self.title.clone(),
            target: match &self.target {
                Some(t) => Some(t.clone()),
                None => None,
            },
            tests: crate::note::clone_string_vec(&self.tests),
        };
        proof {
            assert(r@ == self@);
        }
        r
    }
}

/// A commit of the working history together with its stored metadata, as
/// the revision lister hands it to the renderer.
#[derive(Debug, PartialEq, Eq)]
pub struct EnhancedCommit {
    pub id: CommitId,
    pub title: String,
    pub description: Option<String>,
    pub note: Option<Note>,
}

pub ghost struct EntryV {
    pub id: Seq<char>,
    pub title: Seq<char>,
    pub description: Option<Seq<char>>,
    pub note: Option<NoteV>,
}

impl View for EnhancedCommit {
    type V = EntryV;

    open spec fn view(&self) -> EntryV {
        EntryV {
            id: self.id@,
            title: self.title@,
            description: match self.description {
                Some(d) => Some(d@),
                None => None,
            },
            note: match self.note {
                Some(n) => Some(n@),
                None => None,
            },
        }
    }
}

impl DeepView for EnhancedCommit {
    type V = EntryV;

    open spec fn deep_view(&self) -> EntryV {
        self.view()
    }
}

// ---------------------------------------------------------------------
// Rendering: the plan text of a commit list.
// ---------------------------------------------------------------------
pub open spec fn render_commit_line(id: Seq<char>, title: Seq<char>) -> Seq<char> {
    id + seq![' '] + title
}

pub open spec fn render_target_line(p: PushV) -> Seq<char> {
    match p.origin {
        Some(o) => seq!['-', '>', ' '] + o + seq![':'] + p.branch,
        None => seq!['-', '>', ' '] + p.branch,
    }
}

pub open spec fn render_test_line(cmd: Seq<char>) -> Seq<char> {
    seq!['$', ' '] + cmd
}

/// The annotation lines of a record: its target line when a push target is
/// set, then one line per test.
pub open spec fn note_lines(n: NoteV) -> Seq<Seq<char>> {
    let target_lines: Seq<Seq<char>> = match n.push {
        Some(p) => seq![render_target_line(p)],
        None => Seq::empty(),
    };
    target_lines + n.tests.map_values(|c: Seq<char>| render_test_line(c))
}

/// The lines of one plan entry: the commit line, the annotation lines, and
/// a separating blank line.
pub open spec fn entry_lines(e: EntryV) -> Seq<Seq<char>> {
    let ann = match e.note {
        Some(n) => note_lines(n),
        None => Seq::empty(),
    };
    seq![render_commit_line(e.id, e.title)] + ann + seq![Seq::<char>::empty()]
}

pub open spec fn plan_lines(entries: Seq<EntryV>) -> Seq<Seq<char>>
    decreases entries.len(),
{
    if entries.len() == 0 {
        Seq::empty()
    } else {
        entry_lines(entries[0]) + plan_lines(entries.skip(1))
    }
}

/// The rendered plan text: its lines, each terminated with a newline.
pub open spec fn spec_render(entries: Seq<EntryV>) -> Seq<char> {
    spec_join_lines(plan_lines(entries))
}

pub proof fn lemma_plan_lines_concat(a: Seq<EntryV>, b: Seq<EntryV>)
    ensures
        plan_lines(a + b) == plan_lines(a) + plan_lines(b),
    decreases a.len(),
{
    if a.len() == 0 {
        assert(a + b == b);
        assert(plan_lines(a) + plan_lines(b) =~~= plan_lines(b));
    } else {
        assert((a + b).skip(1) == a.skip(1) + b);
        lemma_plan_lines_concat(a.skip(1), b);
        assert((a + b)[0] == a[0]);
        assert(entry_lines(a[0]) + (plan_lines(a.skip(1)) + plan_lines(b)) =~~= (entry_lines(a[0])
            + plan_lines(a.skip(1))) + plan_lines(b));
    }
}

/// Append a full string to the output.
fn put(out: &mut String, piece: &str)
    ensures
        final(out)@ == old(out)@ + piece@,
{
    out.append(piece);
}

/// Render the annotation lines of one record, appended to `out` with each
/// line terminated.
fn render_note(out: &mut String, n: &Note)
    ensures
        final(out)@ == old(out)@ + spec_join_lines(note_lines(n@)),
{
    let ghost base0 = out@;
    match &n.push {
        Some(p) => {
            put(out, "-> ");
            match &p.origin {
                Some(o) => {
                    put(out, o.as_str());
                    put(out, ":");
                },
                None => {},
            }
            put(out, p.branch.as_str());
            put(out, "\n");
            proof {
                reveal_strlit("-> ");
                reveal_strlit(":");
                reveal_strlit("\n");
                assert(out@ =~= base0 + render_target_line(p@) + seq!['\n']);
            }
        },
        None => {},
    }
    let ghost base = out@;
    let ghost tlines = n@.tests.map_values(|c: Seq<char>| render_test_line(c));
    let mut i: usize = 0;
    proof {
        assert(base + spec_join_lines(tlines.take(0)) =~= base);
    }
    while i < n.tests.len()
        invariant
            i <= n.tests@.len(),
            tlines == n@.tests.map_values(|c: Seq<char>| render_test_line(c)),
            tlines.len() == n.tests@.len(),
            forall|k: int| 0 <= k < tlines.len() ==> tlines[k] == render_test_line(
                n.tests@[k]@,
            ),
            out@ == base + spec_join_lines(tlines.take(i as int)),
        decreases n.tests.len() - i,
    {
        let ghost before = out@;
        put(out, "$ ");
        put(out, n.tests[i].as_str());
        put(out, "\n");
        proof {
            reveal_strlit("$ ");
            reveal_strlit("\n");
            assert(out@ =~= before + (render_test_line(n.tests@[i as int]@) + seq!['\n']));
            assert(tlines.take(i + 1) =~~= tlines.take(i as int) + seq![tlines[i as int]]);
            lemma_join_one(tlines.take(i as int), tlines[i as int]);
            assert(out@ =~= base + spec_join_lines(tlines.take(i + 1)));
        }
        i += 1;
    }
    proof {
        assert(tlines.take(tlines.len() as int) =~~= tlines);
        match n@.push {
            Some(p) => {
                assert(note_lines(n@) =~~= seq![render_target_line(p)] + tlines);
                lemma_join_cons(render_target_line(p), tlines);
                assert(out@ =~= old(out)@ + spec_join_lines(note_lines(n@)));
            },
            None => {
                assert(note_lines(n@) =~~= tlines);
            },
        }
    }
}

/// Joining one more line on the right.
proof fn lemma_join_one(ls: Seq<Seq<char>>, l: Seq<char>)
    ensures
        spec_join_lines(ls + seq![l]) == spec_join_lines(ls) + (l + seq!['\n']),
{
    crate::textutil::lemma_join_lines_concat(ls, seq![l]);
    lemma_join_single(l);
}

/// The join of a single line.
proof fn lemma_join_single(l: Seq<char>)
    ensures
        spec_join_lines(seq![l]) == l + seq!['\n'],
{
    assert(seq![l].len() == 1);
    assert(seq![l][0] == l);
    assert(seq![l].skip(1) =~~= Seq::<Seq<char>>::empty());
    assert(spec_join_lines(Seq::<Seq<char>>::empty()) == Seq::<char>::empty());
    assert(spec_join_lines(seq![l]) == l + seq!['\n'] + Seq::<char>::empty());
    assert(l + seq!['\n'] + Seq::<char>::empty() =~= l + seq!['\n']);
}

/// Joining one more line on the left.
proof fn lemma_join_cons(l: Seq<char>, ls: Seq<Seq<char>>)
    ensures
        spec_join_lines(seq![l] + ls) == (l + seq!['\n']) + spec_join_lines(ls),
{
    crate::textutil::lemma_join_lines_concat(seq![l], ls);
    lemma_join_single(l);
}

/// Render the plan text of a commit list: for every commit, in order, its
/// commit line, its annotation lines when metadata is present, and a
/// separating blank line.
pub fn commits_to_string(commits: &Vec<EnhancedCommit>) -> (r: String)
    ensures
        r@ == spec_render(commits.deep_view()),
{
    let ghost entries = commits.deep_view();
    let mut out = String::new();
    let mut i: usize = 0;
    proof {
        assert(entries.len() == commits@.len());
        assert(forall|k: int|
            0 <= k < entries.len() ==> entries[k] == #[trigger] commits@[k].deep_view());
        assert(out@ + spec_join_lines(plan_lines(entries.take(0))) =~= out@);
        assert(plan_lines(entries.take(0)) =~~= Seq::<Seq<char>>::empty());
    }
    while i < commits.len()
        invariant
            i <= commits@.len(),
            entries == commits.deep_view(),
            entries.len() == commits@.len(),
            forall|k: int|
                0 <= k < entries.len() ==> entries[k] == #[trigger] commits@[k].deep_view(),
            out@ == spec_join_lines(plan_lines(entries.take(i as int))),
        decreases commits.len() - i,
    {
        let ghost before = out@;
        let ghost e = entries[i as int];
        let c = &commits[i];
        put(&mut out, c.id.as_str());
        put(&mut out, " ");
        put(&mut out, c.title.as_str());
        put(&mut out, "\n");
        proof {
            reveal_strlit(" ");
            reveal_strlit("\n");
            assert(out@ =~= before + (render_commit_line(e.id, e.title) + seq!['\n']));
        }
        let ghost mid = out@;
        match &c.note {
            Some(n) => {
                render_note(&mut out, n);
                proof {
                    assert(e.note == Some(n@));
                }
            },
            None => {
                proof {
                    assert(out@ =~= mid + spec_join_lines(Seq::<Seq<char>>::empty()));
                }
            },
        }
        let ghost mid2 = out@;
        put(&mut out, "\n");
        proof {
            reveal_strlit("\n");
            let ann = match e.note {
                Some(n) => note_lines(n),
                None => Seq::<Seq<char>>::empty(),
            };
            assert(mid2 =~= mid + spec_join_lines(ann));
            assert(out@ =~= mid2 + (Seq::<char>::empty() + seq!['\n']));
            lemma_join_cons(render_commit_line(e.id, e.title), ann + seq![Seq::<char>::empty()]);
            crate::textutil::lemma_join_lines_concat(ann, seq![Seq::<char>::empty()]);
            lemma_join_single(Seq::<char>::empty());
            assert(spec_join_lines(seq![Seq::<char>::empty()]) =~= seq!['\n']);
            assert(entry_lines(e) == seq![render_commit_line(e.id, e.title)] + ann + seq![
                Seq::<char>::empty(),
            ]);
            assert(seq![render_commit_line(e.id, e.title)] + ann + seq![Seq::<char>::empty()]
                =~~= seq![render_commit_line(e.id, e.title)] + (ann + seq![Seq::<char>::empty()]));
            assert(out@ =~= before + spec_join_lines(entry_lines(e)));
            assert(entries.take(i + 1) =~~= entries.take(i as int) + seq![e]);
            lemma_plan_lines_concat(entries.take(i as int), seq![e]);
            assert(plan_lines(seq![e]) =~~= entry_lines(e)) by {
                assert(seq![e].skip(1) =~~= Seq::<EntryV>::empty());
                assert(entry_lines(e) + plan_lines(Seq::<EntryV>::empty()) =~~= entry_lines(e));
            }
            crate::textutil::lemma_join_lines_concat(
                plan_lines(entries.take(i as int)),
                entry_lines(e),
            );
            assert(out@ =~= spec_join_lines(plan_lines(entries.take(i + 1))));
        }
        i += 1;
    }
    proof {
        assert(entries.take(entries.len() as int) =~~= entries);
    }
    out
}

// ---------------------------------------------------------------------
// Grouping: plan lines to instructions.
// ---------------------------------------------------------------------
/// The grouping state: finished instructions, and the instruction whose
/// annotation lines are still being read.
pub ghost struct GroupState {
    pub done: Seq<InstrV>,
    pub cur: Option<InstrV>,
}

pub open spec fn group_close(st: GroupState) -> Seq<InstrV> {
    match st.cur {
        None => st.done,
        Some(c) => st.done.push(c),
    }
}

/// One plan line applied to the grouping state. A commit line opens a new
/// instruction; a target line is allowed at most once and only before any
/// test line; annotation lines before any commit line are rejected.
pub open spec fn group_step(st: GroupState, lv: LineV) -> Option<GroupState> {
    match lv {
        LineV::CommitL { sha, title } => if !id_wf(sha) {
            None
        } else {
            Some(
                GroupState {
                    done: group_close(st),
                    cur: Some(InstrV { hash: sha, title, target: None, tests: Seq::empty() }),
                },
            )
        },
        LineV::BranchL { origin, name } => match st.cur {
            None => None,
            Some(c) => if c.target is Some || c.tests.len() > 0 {
                None
            } else {
                Some(
                    GroupState {
                        done: st.done,
                        cur: Some(
                            InstrV {
                                hash: c.hash,
                                title: c.title,
                                target: Some(PushV { origin, branch: name }),
                                tests: c.tests,
                            },
                        ),
                    },
                )
            },
        },
        LineV::TestL { cmd } => match st.cur {
            None => None,
            Some(c) => Some(
                GroupState {
                    done: st.done,
                    cur: Some(
                        InstrV {
                            hash: c.hash,
                            title: c.title,
                            target: c.target,
                            tests: c.tests.push(cmd),
                        },
                    ),
                },
            ),
        },
    }
}

pub open spec fn group_run(lvs: Seq<LineV>, st: GroupState) -> Option<GroupState>
    decreases lvs.len(),
{
    if lvs.len() == 0 {
        Some(st)
    } else {
        match group_step(st, lvs[0]) {
            None => None,
            Some(st2) => group_run(lvs.skip(1), st2),
        }
    }
}

pub open spec fn group_init() -> GroupState {
    GroupState { done: Seq::empty(), cur: None }
}

/// The instructions of a list of plan lines.
pub open spec fn spec_group(lvs: Seq<LineV>) -> Option<Seq<InstrV>> {
    match group_run(lvs, group_init()) {
        None => None,
        Some(st) => Some(group_close(st)),
    }
}

/// The instructions of an edited plan text: parse its lines, then group
/// them.
pub open spec fn spec_instructions_of(s: Seq<char>) -> Option<Seq<InstrV>> {
    match crate::parser::spec_parse_file(s) {
        None => None,
        Some(lvs) => spec_group(lvs),
    }
}

/// The current instruction under construction, executable form.
struct CurInstr {
    hash: CommitId,
    title: String,
    target: Option<Target>,
    tests: Vec<String>,
}

impl CurInstr {
    spec fn instr_view(&self) -> InstrV {
        InstrV {
            hash: self.hash@,
            title: self.title@,
            target: match self.target {
                Some(t) => Some(t@),
                None => None,
            },
            tests: self.tests.deep_view(),
        }
    }

    fn into_commit(self) -> (r: Commit)
        ensures
            r@ == self.instr_view(),
    {
        Commit { hash: self.hash, title: self.title, target: self.target, tests: self.tests }
    }
}

spec fn group_state_of(done: Seq<InstrV>, cur: Option<InstrV>) -> GroupState {
    GroupState { done, cur }
}

/// Parse an edited plan into instructions, one per commit line, each
/// carrying the target and test lines written under it. `None` when the
/// text is out of the grammar; nothing is partially accepted.
pub fn instruction_from_string(input: String) -> (r: Option<Vec<Commit>>)
    ensures
        match r {
            Some(instrs) => spec_instructions_of(input@) == Some(instrs.deep_view()),
            None => spec_instructions_of(input@) is None,
        },
{
    let parsed = crate::parser::Parser::parse_file(input.as_str());
    let lines = match parsed {
        Ok(lines) => lines,
        Err(_) => {
            return None;
        },
    };
    let ghost lvs = lines.deep_view();
    let mut done: Vec<Commit> = Vec::new();
    let mut cur: Option<CurInstr> = None;
    let mut i: usize = 0;
    proof {
        assert(lvs.skip(0) == lvs);
        assert(done.deep_view() =~~= Seq::<InstrV>::empty());
    }
    while i < lines.len()
        invariant
            i <= lines@.len(),
            lvs == lines.deep_view(),
            crate::parser::spec_parse_file(input@) == Some(lvs),
            lvs.len() == lines@.len(),
            forall|k: int| 0 <= k < lvs.len() ==> lvs[k] == lines@[k]@,
            group_run(lvs, group_init()) == group_run(
                lvs.skip(i as int),
                group_state_of(
                    done.deep_view(),
                    match cur {
                        Some(ref c) => Some(c.instr_view()),
                        None => None,
                    },
                ),
            ),
        decreases lines.len() - i,
    {
        let ghost st = group_state_of(
            done.deep_view(),
            match cur {
                Some(ref c) => Some(c.instr_view()),
                None => None,
            },
        );
        proof {
            assert(lvs.skip(i as int)[0] == lvs[i as int]);
            assert(lvs.skip(i as int).skip(1) =~~= lvs.skip(i + 1));
        }
        let line = &lines[i];
        match line {
            crate::parser::Line::Commit(c) => {
                let sha_chars = crate::textutil::chars_of(c.sha.as_str());
                let mut ok = sha_chars.len() == 40;
                let mut k: usize = 0;
                while k < sha_chars.len() && ok
                    invariant
                        k <= sha_chars@.len(),
                        sha_chars@ == c.sha@,
                        ok ==> forall|m: int|
                            0 <= m < k ==> crate::ids::spec_is_hex_char(#[trigger] sha_chars@[m]),
                        ok == (sha_chars@.len() == 40 && forall|m: int|
                            0 <= m < k ==> crate::ids::spec_is_hex_char(#[trigger] sha_chars@[m])),
                    decreases sha_chars.len() - k,
                {
                    if !crate::ids::is_hex_char(sha_chars[k]) {
                        ok = false;
                    }
                    k += 1;
                }
                if !ok {
                    proof {
                        assert(!id_wf(c.sha@));
                        assert(group_step(st, lvs[i as int]) is None);
                    }
                    return None;
                }
                proof {
                    assert(id_wf(c.sha@));
                }
                let ghost old_done = done.deep_view();
                match cur {
                    Some(prev) => {
                        let ghost pv = prev.instr_view();
                        done.push(prev.into_commit());
                        proof {
                            assert(done.deep_view() =~~= old_done.push(pv));
                        }
                    },
                    None => {},
                }
                cur = Some(
                    CurInstr {
                        hash: CommitId::from_hex_string(c.sha.clone()),
                        title: c.title.clone(),
                        target: None,
                        tests: Vec::new(),
                    },
                );
                proof {
                    match cur {
                        Some(ref cc) => {
                            assert(cc.tests.deep_view() =~~= Seq::<Seq<char>>::empty());
                            assert(cc.instr_view() == InstrV {
                                hash: c.sha@,
                                title: c.title@,
                                target: None,
                                tests: Seq::empty(),
                            });
                        },
                        None => {
                            assert(false);
                        },
                    }
                }
            },
            crate::parser::Line::Branch(b) => {
                match cur {
                    None => {
                        proof {
                            assert(group_step(st, lvs[i as int]) is None);
                        }
                        return None;
                    },
                    Some(ref mut c) => {
                        let has_target = match &c.target {
                            Some(_) => true,
                            None => false,
                        };
                        if has_target || c.tests.len() > 0 {
                            proof {
                                assert(group_step(st, lvs[i as int]) is None);
                            }
                            return None;
                        }
                        let origin = match &b.origin {
                            Some(o) => Some(o.clone()),
                            None => None,
                        };
                        c.target = Some(Target { origin, branch: b.name.clone() });
                    },
                }
            },
            crate::parser::Line::Test(t) => {
                match cur {
                    None => {
                        proof {
                            assert(group_step(st, lvs[i as int]) is None);
                        }
                        return None;
                    },
                    Some(ref mut c) => {
                        let ghost old_tests = c.tests.deep_view();
                        c.tests.push(t.clone());
                        proof {
                            assert(c.tests.deep_view() =~~= old_tests.push(t@));
                        }
                    },
                }
            },
        }
        i += 1;
    }
    proof {
        assert(lvs.skip(lvs.len() as int) =~~= Seq::<LineV>::empty());
    }
    let ghost final_done = done.deep_view();
    match cur {
        Some(last) => {
            let ghost lv = last.instr_view();
            done.push(last.into_commit());
            proof {
                assert(done.deep_view() =~~= final_done.push(lv));
            }
        },
        None => {},
    }
    Some(done)
}

// ---------------------------------------------------------------------
// The round-trip law (well-formedness side conditions).
// ---------------------------------------------------------------------
/// A branch or remote name as a plan can carry it: non-empty, on one line,
/// without a colon, and not starting with a space.
pub open spec fn name_token_wf(s: Seq<char>) -> bool {
    &&& s.len() > 0
    &&& no_nl(s)
    &&& first_colon(s) == s.len()
    &&& s[0] != ' '
}

pub open spec fn push_wf(p: PushV) -> bool {
    &&& name_token_wf(p.branch)
    &&& match p.origin {
        Some(o) => name_token_wf(o),
        None => true,
    }
}

pub open spec fn note_wf(n: NoteV) -> bool {
    &&& match n.push {
        Some(p) => push_wf(p),
        None => true,
    }
    &&& forall|i: int| 0 <= i < n.tests.len() ==> no_nl(#[trigger] n.tests[i])
}

pub open spec fn entry_wf(e: EntryV) -> bool {
    &&& id_wf(e.id)
    &&& no_nl(e.title)
    &&& match e.note {
        Some(n) => note_wf(n),
        None => true,
    }
}

pub open spec fn plan_wf(entries: Seq<EntryV>) -> bool {
    forall|i: int| 0 <= i < entries.len() ==> entry_wf(#[trigger] entries[i])
}

/// The instruction a well-formed plan entry parses back to.
pub open spec fn instr_of(e: EntryV) -> InstrV {
    InstrV {
        hash: e.id,
        title: e.title,
        target: match e.note {
            Some(n) => n.push,
            None => None,
        },
        tests: match e.note {
            Some(n) => n.tests,
            None => Seq::empty(),
        },
    }
}

/// The plan entry an instruction renders as.
pub open spec fn entry_of_instr(i: InstrV) -> EntryV {
    EntryV {
        id: i.hash,
        title: i.title,
        description: None,
        note: Some(NoteV { push: i.target, tests: i.tests }),
    }
}

// Per-line classification of rendered lines.
proof fn lemma_classify_commit_line(id: Seq<char>, title: Seq<char>)
    requires
        id_wf(id),
    ensures
        crate::parser::spec_classify_line(render_commit_line(id, title))
            == crate::parser::LineClass::Entry(LineV::CommitL { sha: id, title }),
{
    let l = render_commit_line(id, title);
    assert(l[0] == id[0]);
    assert(crate::ids::spec_is_hex_char(id[0]));
    assert(!crate::textutil::spec_is_blank(l));
    assert(l[0] != '#' && l[0] != '-' && l[0] != '$');
    assert forall|i: int| 0 <= i < 40 implies crate::parser::spec_is_hex_ext(#[trigger] l[i]) by {
        assert(l[i] == id[i]);
    }
    assert(l.len() == 41 + title.len());
    assert(l[40] == ' ');
    let sha = l.take(40).map_values(|c: char| crate::ids::spec_hex_lower(c));
    assert(sha =~= id) by {
        assert forall|i: int| 0 <= i < 40 implies sha[i] == id[i] by {
            assert(l.take(40)[i] == id[i]);
            assert(crate::ids::spec_is_hex_char(id[i]));
        }
    }
    assert(l.skip(41) =~= title);
}

proof fn lemma_classify_target_line(p: PushV)
    requires
        push_wf(p),
    ensures
        crate::parser::spec_classify_line(render_target_line(p))
            == crate::parser::LineClass::Entry(
            LineV::BranchL { origin: p.origin, name: p.branch },
        ),
{
    let l = render_target_line(p);
    let b = p.branch;
    assert(!crate::textutil::spec_is_blank(l)) by {
        assert(l[0] == '-');
    }
    assert(l[0] == '-' && l[1] == '>');
    let rest = l.skip(2);
    match p.origin {
        None => {
            assert(rest =~= seq![' '] + b);
            assert(rest[0] == ' ');
            assert(rest[1] == b[0]);
            crate::parser::lemma_leading_spaces_is(rest, 1);
            let tok = rest.skip(1);
            assert(tok =~= b);
            assert(crate::parser::first_colon(tok) == tok.len());
            assert(crate::parser::classify_target(l) == crate::parser::LineClass::Entry(
                LineV::BranchL { origin: None, name: tok },
            ));
        },
        Some(o) => {
            assert(rest =~= seq![' '] + o + seq![':'] + b);
            assert(rest[0] == ' ');
            assert(rest[1] == o[0]);
            crate::parser::lemma_leading_spaces_is(rest, 1);
            let tok = rest.skip(1);
            assert(tok =~= o + seq![':'] + b);
            crate::parser::lemma_first_colon_bounds(o);
            assert forall|k: int| 0 <= k < o.len() implies tok[k] != ':' by {
                assert(tok[k] == o[k]);
            }
            assert(tok[o.len() as int] == ':');
            crate::parser::lemma_first_colon_is(tok, o.len() as int);
            assert(tok.take(o.len() as int) =~= o);
            assert(tok.skip(o.len() as int + 1) =~= b);
        },
    }
}

proof fn lemma_classify_test_line(cmd: Seq<char>)
    ensures
        crate::parser::spec_classify_line(render_test_line(cmd))
            == crate::parser::LineClass::Entry(LineV::TestL { cmd }),
{
    let l = render_test_line(cmd);
    assert(!crate::textutil::spec_is_blank(l)) by {
        assert(l[0] == '$');
    }
    assert(l[0] == '$' && l[1] == ' ');
    assert(l.skip(2) =~= cmd);
}

// Parsing distributes over concatenation of line lists.
proof fn lemma_parse_lines_concat(a: Seq<Seq<char>>, b: Seq<Seq<char>>)
    ensures
        crate::parser::spec_parse_lines(a + b) == match crate::parser::spec_parse_lines(a) {
            None => None::<Seq<LineV>>,
            Some(x) => match crate::parser::spec_parse_lines(b) {
                None => None,
                Some(y) => Some(x + y),
            },
        },
    decreases a.len(),
{
    if a.len() == 0 {
        assert(a + b == b);
        match crate::parser::spec_parse_lines(b) {
            None => {},
            Some(y) => {
                assert(Seq::<LineV>::empty() + y =~~= y);
            },
        }
    } else {
        assert((a + b)[0] == a[0]);
        assert((a + b).skip(1) == a.skip(1) + b);
        lemma_parse_lines_concat(a.skip(1), b);
        match crate::parser::spec_classify_line(a[0]) {
            crate::parser::LineClass::Bad => {},
            crate::parser::LineClass::Blank => {},
            crate::parser::LineClass::Comment => {},
            crate::parser::LineClass::Entry(e) => {
                match crate::parser::spec_parse_lines(a.skip(1)) {
                    None => {},
                    Some(x1) => {
                        match crate::parser::spec_parse_lines(b) {
                            None => {},
                            Some(y) => {
                                assert(seq![e] + (x1 + y) =~~= (seq![e] + x1) + y);
                            },
                        }
                    },
                }
            },
        }
    }
}

/// The plan lines an entry parses back to.
pub open spec fn entry_linevs(e: EntryV) -> Seq<LineV> {
    seq![LineV::CommitL { sha: e.id, title: e.title }] + match e.note {
        None => Seq::<LineV>::empty(),
        Some(n) => (match n.push {
            Some(p) => seq![LineV::BranchL { origin: p.origin, name: p.branch }],
            None => Seq::<LineV>::empty(),
        }) + n.tests.map_values(|c: Seq<char>| LineV::TestL { cmd: c }),
    }
}

pub open spec fn plan_linevs(entries: Seq<EntryV>) -> Seq<LineV>
    decreases entries.len(),
{
    if entries.len() == 0 {
        Seq::empty()
    } else {
        entry_linevs(entries[0]) + plan_linevs(entries.skip(1))
    }
}

proof fn lemma_parse_single(l: Seq<char>, e: LineV)
    requires
        crate::parser::spec_classify_line(l) == crate::parser::LineClass::Entry(e),
    ensures
        crate::parser::spec_parse_lines(seq![l]) == Some(seq![e]),
{
    assert(seq![l][0] == l);
    assert(seq![l].skip(1) =~~= Seq::<Seq<char>>::empty());
    assert(crate::parser::spec_parse_lines(seq![l].skip(1)) == Some(Seq::<LineV>::empty()));
    assert(seq![e] + Seq::<LineV>::empty() =~~= seq![e]);
}

proof fn lemma_parse_test_lines(tests: Seq<Seq<char>>)
    ensures
        crate::parser::spec_parse_lines(
            tests.map_values(|c: Seq<char>| render_test_line(c)),
        ) == Some(tests.map_values(|c: Seq<char>| LineV::TestL { cmd: c })),
    decreases tests.len(),
{
    let lines = tests.map_values(|c: Seq<char>| render_test_line(c));
    let lvs = tests.map_values(|c: Seq<char>| LineV::TestL { cmd: c });
    if tests.len() == 0 {
        assert(lines =~~= Seq::<Seq<char>>::empty());
        assert(lvs =~~= Seq::<LineV>::empty());
    } else {
        lemma_parse_test_lines(tests.skip(1));
        assert(lines[0] == render_test_line(tests[0]));
        lemma_classify_test_line(tests[0]);
        assert(lines.skip(1) =~~= tests.skip(1).map_values(|c: Seq<char>| render_test_line(c)));
        assert(seq![LineV::TestL { cmd: tests[0] }] + tests.skip(1).map_values(
            |c: Seq<char>| LineV::TestL { cmd: c },
        ) =~~= lvs);
    }
}

proof fn lemma_parse_entry_lines(e: EntryV)
    requires
        entry_wf(e),
    ensures
        crate::parser::spec_parse_lines(entry_lines(e)) == Some(entry_linevs(e)),
{
    let cl = render_commit_line(e.id, e.title);
    lemma_classify_commit_line(e.id, e.title);
    lemma_parse_single(cl, LineV::CommitL { sha: e.id, title: e.title });
    let blank: Seq<Seq<char>> = seq![Seq::<char>::empty()];
    assert(blank[0] =~= Seq::<char>::empty());
    assert(crate::textutil::spec_is_blank(blank[0]));
    assert(blank.skip(1) =~~= Seq::<Seq<char>>::empty());
    assert(crate::parser::spec_parse_lines(blank.skip(1)) == Some(Seq::<LineV>::empty()));
    assert(crate::parser::spec_parse_lines(blank) == Some(Seq::<LineV>::empty()));
    match e.note {
        None => {
            assert(entry_lines(e) =~~= seq![cl] + blank) by {
                assert(entry_lines(e) == seq![cl] + Seq::<Seq<char>>::empty() + blank);
            }
            lemma_parse_lines_concat(seq![cl], blank);
            assert(entry_linevs(e) =~~= seq![LineV::CommitL { sha: e.id, title: e.title }]
                + Seq::<LineV>::empty());
            assert(seq![LineV::CommitL { sha: e.id, title: e.title }] + Seq::<LineV>::empty()
                =~~= seq![LineV::CommitL { sha: e.id, title: e.title }]);
        },
        Some(n) => {
            let tlines = n.tests.map_values(|c: Seq<char>| render_test_line(c));
            let tlvs = n.tests.map_values(|c: Seq<char>| LineV::TestL { cmd: c });
            lemma_parse_test_lines(n.tests);
            let (alines, alvs): (Seq<Seq<char>>, Seq<LineV>) = match n.push {
                Some(p) => {
                    lemma_classify_target_line(p);
                    lemma_parse_single(
                        render_target_line(p),
                        LineV::BranchL { origin: p.origin, name: p.branch },
                    );
                    lemma_parse_lines_concat(seq![render_target_line(p)], tlines);
                    (
                        seq![render_target_line(p)] + tlines,
                        seq![LineV::BranchL { origin: p.origin, name: p.branch }] + tlvs,
                    )
                },
                None => {
                    assert(Seq::<Seq<char>>::empty() + tlines =~~= tlines);
                    (tlines, tlvs)
                },
            };
            assert(crate::parser::spec_parse_lines(alines) == Some(alvs));
            lemma_parse_lines_concat(alines, blank);
            assert(alvs + Seq::<LineV>::empty() =~~= alvs);
            assert(crate::parser::spec_parse_lines(alines + blank) == Some(alvs));
            lemma_parse_lines_concat(seq![cl], alines + blank);
            assert(entry_lines(e) =~~= seq![cl] + (alines + blank)) by {
                match n.push {
                    Some(p) => {
                        assert(note_lines(n) == seq![render_target_line(p)] + tlines);
                    },
                    None => {
                        assert(note_lines(n) == Seq::<Seq<char>>::empty() + tlines);
                        assert(note_lines(n) =~~= tlines);
                    },
                }
                assert(entry_lines(e) == seq![cl] + note_lines(n) + blank);
            }
            assert(crate::parser::spec_parse_lines(entry_lines(e)) == Some(
                seq![LineV::CommitL { sha: e.id, title: e.title }] + alvs,
            ));
            assert(entry_linevs(e) =~~= seq![LineV::CommitL { sha: e.id, title: e.title }] + alvs);
        },
    }
}

proof fn lemma_parse_plan_lines(entries: Seq<EntryV>)
    requires
        plan_wf(entries),
    ensures
        crate::parser::spec_parse_lines(plan_lines(entries)) == Some(plan_linevs(entries)),
    decreases entries.len(),
{
    if entries.len() == 0 {
    } else {
        assert(entry_wf(entries[0]));
        lemma_parse_entry_lines(entries[0]);
        assert(plan_wf(entries.skip(1))) by {
            assert(forall|i: int|
                0 <= i < entries.skip(1).len() ==> entries.skip(1)[i] == entries[i + 1]);
        }
        lemma_parse_plan_lines(entries.skip(1));
        lemma_parse_lines_concat(entry_lines(entries[0]), plan_lines(entries.skip(1)));
    }
}

proof fn lemma_plan_lines_no_nl(entries: Seq<EntryV>)
    requires
        plan_wf(entries),
    ensures
        forall|i: int| 0 <= i < plan_lines(entries).len() ==> no_nl(#[trigger] plan_lines(
            entries,
        )[i]),
    decreases entries.len(),
{
    if entries.len() == 0 {
    } else {
        let e = entries[0];
        assert(entry_wf(e));
        assert(plan_wf(entries.skip(1))) by {
            assert(forall|i: int|
                0 <= i < entries.skip(1).len() ==> entries.skip(1)[i] == entries[i + 1]);
        }
        lemma_plan_lines_no_nl(entries.skip(1));
        let el = entry_lines(e);
        assert forall|i: int| 0 <= i < el.len() implies no_nl(#[trigger] el[i]) by {
            lemma_entry_lines_no_nl(e, i);
        }
        assert forall|i: int| 0 <= i < plan_lines(entries).len() implies no_nl(
            #[trigger] plan_lines(entries)[i],
        ) by {
            if i < el.len() {
                assert(plan_lines(entries)[i] == el[i]);
            } else {
                assert(plan_lines(entries)[i] == plan_lines(entries.skip(1))[i - el.len()]);
            }
        }
    }
}

proof fn lemma_entry_lines_no_nl(e: EntryV, i: int)
    requires
        entry_wf(e),
        0 <= i < entry_lines(e).len(),
    ensures
        no_nl(entry_lines(e)[i]),
{
    let el = entry_lines(e);
    let cl = render_commit_line(e.id, e.title);
    if i == 0 {
        assert(el[0] == cl);
        assert forall|k: int| 0 <= k < cl.len() implies cl[k] != '\n' by {
            if k < 40 {
                assert(cl[k] == e.id[k]);
                assert(crate::ids::spec_is_hex_char(e.id[k]));
            } else if k == 40 {
            } else {
                assert(cl[k] == e.title[k - 41]);
            }
        }
    } else if i == el.len() - 1 {
        assert(el[i] =~= Seq::<char>::empty());
    } else {
        match e.note {
            None => {
                assert(false);
            },
            Some(n) => {
                let ann = note_lines(n);
                assert(el[i] == ann[i - 1]);
                lemma_note_lines_no_nl(n, i - 1);
            },
        }
    }
}

proof fn lemma_note_lines_no_nl(n: NoteV, j: int)
    requires
        note_wf(n),
        0 <= j < note_lines(n).len(),
    ensures
        no_nl(note_lines(n)[j]),
{
    let ann = note_lines(n);
    let tlines = n.tests.map_values(|c: Seq<char>| render_test_line(c));
    match n.push {
        Some(p) => {
            if j == 0 {
                assert(ann[0] == render_target_line(p));
                lemma_target_line_no_nl(p);
            } else {
                assert(ann[j] == tlines[j - 1]);
                lemma_test_line_no_nl(n, j - 1);
            }
        },
        None => {
            assert(ann[j] == tlines[j]);
            lemma_test_line_no_nl(n, j);
        },
    }
}

proof fn lemma_target_line_no_nl(p: PushV)
    requires
        push_wf(p),
    ensures
        no_nl(render_target_line(p)),
{
    let l = render_target_line(p);
    match p.origin {
        Some(o) => {
            assert forall|k: int| 0 <= k < l.len() implies l[k] != '\n' by {
                if k < 3 {
                } else if k < 3 + o.len() {
                    assert(l[k] == o[k - 3]);
                } else if k == 3 + o.len() {
                } else {
                    assert(l[k] == p.branch[k - 4 - o.len()]);
                }
            }
        },
        None => {
            assert forall|k: int| 0 <= k < l.len() implies l[k] != '\n' by {
                if k >= 3 {
                    assert(l[k] == p.branch[k - 3]);
                }
            }
        },
    }
}

proof fn lemma_test_line_no_nl(n: NoteV, t: int)
    requires
        note_wf(n),
        0 <= t < n.tests.len(),
    ensures
        no_nl(n.tests.map_values(|c: Seq<char>| render_test_line(c))[t]),
{
    let l = render_test_line(n.tests[t]);
    assert(n.tests.map_values(|c: Seq<char>| render_test_line(c))[t] == l);
    assert forall|k: int| 0 <= k < l.len() implies l[k] != '\n' by {
        if k >= 2 {
            assert(l[k] == n.tests[t][k - 2]);
        }
    }
}

// Grouping of the parsed-back lines.
proof fn lemma_group_run_concat(a: Seq<LineV>, b: Seq<LineV>, st: GroupState)
    ensures
        group_run(a + b, st) == match group_run(a, st) {
            None => None::<GroupState>,
            Some(st2) => group_run(b, st2),
        },
    decreases a.len(),
{
    if a.len() == 0 {
        assert(a + b == b);
    } else {
        assert((a + b)[0] == a[0]);
        assert((a + b).skip(1) == a.skip(1) + b);
        match group_step(st, a[0]) {
            None => {},
            Some(st2) => {
                lemma_group_run_concat(a.skip(1), b, st2);
            },
        }
    }
}

proof fn lemma_group_test_lvs(tests: Seq<Seq<char>>, st: GroupState, c: InstrV)
    requires
        st.cur == Some(c),
    ensures
        group_run(tests.map_values(|t: Seq<char>| LineV::TestL { cmd: t }), st) == Some(
            GroupState {
                done: st.done,
                cur: Some(
                    InstrV {
                        hash: c.hash,
                        title: c.title,
                        target: c.target,
                        tests: c.tests + tests,
                    },
                ),
            },
        ),
    decreases tests.len(),
{
    let lvs = tests.map_values(|t: Seq<char>| LineV::TestL { cmd: t });
    if tests.len() == 0 {
        assert(lvs =~~= Seq::<LineV>::empty());
        assert(c.tests + tests =~~= c.tests);
        assert(st == GroupState {
            done: st.done,
            cur: Some(
                InstrV { hash: c.hash, title: c.title, target: c.target, tests: c.tests + tests },
            ),
        });
    } else {
        assert(lvs[0] == (LineV::TestL { cmd: tests[0] }));
        let c1 = InstrV {
            hash: c.hash,
            title: c.title,
            target: c.target,
            tests: c.tests.push(tests[0]),
        };
        let st1 = GroupState { done: st.done, cur: Some(c1) };
        assert(group_step(st, lvs[0]) == Some(st1));
        assert(lvs.skip(1) =~~= tests.skip(1).map_values(|t: Seq<char>| LineV::TestL { cmd: t }));
        lemma_group_test_lvs(tests.skip(1), st1, c1);
        assert(c1.tests + tests.skip(1) =~~= c.tests + tests);
    }
}

proof fn lemma_group_entry_lvs(e: EntryV, rest: Seq<LineV>, st: GroupState)
    requires
        entry_wf(e),
    ensures
        group_run(entry_linevs(e) + rest, st) == group_run(
            rest,
            GroupState { done: group_close(st), cur: Some(instr_of(e)) },
        ),
{
    let cl = LineV::CommitL { sha: e.id, title: e.title };
    let fresh = InstrV { hash: e.id, title: e.title, target: None, tests: Seq::empty() };
    let st1 = GroupState { done: group_close(st), cur: Some(fresh) };
    assert(group_step(st, cl) == Some(st1));
    let ann: Seq<LineV> = match e.note {
        None => Seq::<LineV>::empty(),
        Some(n) => (match n.push {
            Some(p) => seq![LineV::BranchL { origin: p.origin, name: p.branch }],
            None => Seq::<LineV>::empty(),
        }) + n.tests.map_values(|c: Seq<char>| LineV::TestL { cmd: c }),
    };
    assert(entry_linevs(e) == seq![cl] + ann);
    lemma_group_run_concat(seq![cl] + ann, rest, st);
    lemma_group_run_concat(seq![cl], ann, st);
    assert((seq![cl])[0] == cl);
    assert(seq![cl].skip(1) =~~= Seq::<LineV>::empty());
    assert(group_run(seq![cl].skip(1), st1) == Some(st1));
    assert(group_run(seq![cl], st) == Some(st1));
    assert((seq![cl] + ann) + rest =~~= entry_linevs(e) + rest);
    let stf = GroupState { done: group_close(st), cur: Some(instr_of(e)) };
    match e.note {
        None => {
            assert(ann =~~= Seq::<LineV>::empty());
            assert(group_run(ann, st1) == Some(st1));
            assert(instr_of(e) == fresh);
        },
        Some(n) => {
            let tlvs = n.tests.map_values(|c: Seq<char>| LineV::TestL { cmd: c });
            match n.push {
                Some(p) => {
                    let bl = LineV::BranchL { origin: p.origin, name: p.branch };
                    let c2 = InstrV {
                        hash: e.id,
                        title: e.title,
                        target: Some(PushV { origin: p.origin, branch: p.branch }),
                        tests: Seq::empty(),
                    };
                    let st2 = GroupState { done: group_close(st), cur: Some(c2) };
                    assert(group_step(st1, bl) == Some(st2));
                    lemma_group_run_concat(seq![bl], tlvs, st1);
                    assert((seq![bl])[0] == bl);
                    assert(seq![bl].skip(1) =~~= Seq::<LineV>::empty());
                    assert(group_run(seq![bl].skip(1), st2) == Some(st2));
                    assert(group_run(seq![bl], st1) == Some(st2));
                    lemma_group_test_lvs(n.tests, st2, c2);
                    assert(Seq::<Seq<char>>::empty() + n.tests =~~= n.tests);
                    assert(c2.tests + n.tests =~~= n.tests);
                    assert(PushV { origin: p.origin, branch: p.branch } == p);
                    assert(group_run(ann, st1) == Some(stf));
                },
                None => {
                    assert(ann =~~= tlvs);
                    lemma_group_test_lvs(n.tests, st1, fresh);
                    assert(fresh.tests + n.tests =~~= n.tests);
                    assert(group_run(ann, st1) == Some(stf));
                },
            }
        },
    }
}

proof fn lemma_group_plan_lvs(entries: Seq<EntryV>, st: GroupState)
    requires
        plan_wf(entries),
    ensures
        match group_run(plan_linevs(entries), st) {
            Some(stf) => group_close(stf) == group_close(st) + entries.map_values(
                |e: EntryV| instr_of(e),
            ),
            None => false,
        },
    decreases entries.len(),
{
    if entries.len() == 0 {
        assert(plan_linevs(entries) =~~= Seq::<LineV>::empty());
        assert(group_close(st) + entries.map_values(|e: EntryV| instr_of(e)) =~~= group_close(st));
    } else {
        let e = entries[0];
        assert(entry_wf(e));
        lemma_group_entry_lvs(e, plan_linevs(entries.skip(1)), st);
        assert(plan_linevs(entries) == entry_linevs(e) + plan_linevs(entries.skip(1)));
        let st1 = GroupState { done: group_close(st), cur: Some(instr_of(e)) };
        assert(plan_wf(entries.skip(1))) by {
            assert(forall|i: int|
                0 <= i < entries.skip(1).len() ==> entries.skip(1)[i] == entries[i + 1]);
        }
        lemma_group_plan_lvs(entries.skip(1), st1);
        match group_run(plan_linevs(entries.skip(1)), st1) {
            Some(stf) => {
                assert(group_close(st1) == group_close(st).push(instr_of(e)));
                let lhs = group_close(st).push(instr_of(e)) + entries.skip(1).map_values(
                    |x: EntryV| instr_of(x),
                );
                let rhs = group_close(st) + entries.map_values(|x: EntryV| instr_of(x));
                assert(lhs =~~= rhs) by {
                    let m = group_close(st).len() as int;
                    assert(lhs.len() == rhs.len());
                    assert forall|i: int| 0 <= i < lhs.len() implies lhs[i] == rhs[i] by {
                        if i < m {
                            assert(lhs[i] == group_close(st)[i]);
                            assert(rhs[i] == group_close(st)[i]);
                        } else if i == m {
                            assert(lhs[i] == instr_of(e));
                            assert(rhs[i] == entries.map_values(|x: EntryV| instr_of(x))[0]);
                        } else {
                            assert(lhs[i] == entries.skip(1).map_values(|x: EntryV| instr_of(x))[i
                                - m - 1]);
                            assert(entries.skip(1)[i - m - 1] == entries[i - m]);
                            assert(rhs[i] == entries.map_values(|x: EntryV| instr_of(x))[i - m]);
                        }
                    }
                }
            },
            None => {},
        }
    }
}

/// Round-trip, parsing direction: parsing the rendered plan of any
/// well-formed commit list succeeds and yields one instruction per commit,
/// with the commit's identity, title, push target and tests, in order.
pub proof fn lemma_plan_roundtrip(entries: Seq<EntryV>)
    requires
        plan_wf(entries),
    ensures
        spec_instructions_of(spec_render(entries)) == Some(
            entries.map_values(|e: EntryV| instr_of(e)),
        ),
{
    lemma_plan_lines_no_nl(entries);
    crate::textutil::lemma_lines_of_join(plan_lines(entries));
    assert(crate::parser::spec_parse_file(spec_render(entries))
        == crate::parser::spec_parse_lines(plan_lines(entries)));
    lemma_parse_plan_lines(entries);
    lemma_group_plan_lvs(entries, group_init());
    assert(group_close(group_init()) + entries.map_values(|e: EntryV| instr_of(e))
        =~~= entries.map_values(|e: EntryV| instr_of(e)));
}

/// Round-trip, rendering direction: re-rendering the parsed instructions
/// of a rendered plan reproduces the text exactly, so rendering stabilizes
/// after one round.
pub proof fn lemma_render_stable(entries: Seq<EntryV>)
    requires
        plan_wf(entries),
    ensures
        spec_render(
            entries.map_values(|e: EntryV| instr_of(e)).map_values(
                |i: InstrV| entry_of_instr(i),
            ),
        ) == spec_render(entries),
{
    let back = entries.map_values(|e: EntryV| instr_of(e)).map_values(
        |i: InstrV| entry_of_instr(i),
    );
    assert(back.len() == entries.len());
    assert forall|k: int| 0 <= k < entries.len() implies entry_lines(#[trigger] back[k])
        == entry_lines(entries[k]) by {
        let e = entries[k];
        assert(back[k] == entry_of_instr(instr_of(e)));
        let eb = entry_of_instr(instr_of(e));
        match e.note {
            None => {
                assert(note_lines(NoteV { push: None, tests: Seq::empty() })
                    =~~= Seq::<Seq<char>>::empty()) by {
                    assert(Seq::<Seq<char>>::empty().map_values(
                        |c: Seq<char>| render_test_line(c),
                    ) =~~= Seq::<Seq<char>>::empty());
                }
                assert(entry_lines(eb) =~~= entry_lines(e));
            },
            Some(n) => {
                assert(eb.note == Some(NoteV { push: n.push, tests: n.tests }));
                assert(NoteV { push: n.push, tests: n.tests } == n);
                assert(entry_lines(eb) =~~= entry_lines(e));
            },
        }
    }
    lemma_plan_lines_eq(back, entries);
}

proof fn lemma_plan_lines_eq(a: Seq<EntryV>, b: Seq<EntryV>)
    requires
        a.len() == b.len(),
        forall|k: int| 0 <= k < a.len() ==> entry_lines(#[trigger] a[k]) == entry_lines(b[k]),
    ensures
        plan_lines(a) == plan_lines(b),
    decreases a.len(),
{
    if a.len() == 0 {
    } else {
        assert(entry_lines(a[0]) == entry_lines(b[0]));
        assert(forall|k: int| 0 <= k < a.skip(1).len() ==> a.skip(1)[k] == a[k + 1]);
        assert(forall|k: int| 0 <= k < b.skip(1).len() ==> b.skip(1)[k] == b[k + 1]);
        lemma_plan_lines_eq(a.skip(1), b.skip(1));
    }
}

} // verus!
