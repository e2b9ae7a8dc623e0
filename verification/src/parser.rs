use vstd::prelude::*;

verus! {

use crate::ids::{spec_is_hex_char, spec_hex_lower, is_hex_char, hex_lower};
use crate::textutil::{spec_lines_of, spec_is_blank, chars_of, split_lines, is_blank,
    string_from_range, push_char};

// The line grammar of a plan. A plan is line-oriented text:
//   - `<commit-id> <title>`       names a commit (40 hex digits, then the title),
//   - `-> [origin:]branch`        attaches a push target to the commit above,
//   - `$ <command>`               attaches a validation command to it,
//   - lines starting with `#`     are comments,
//   - blank lines                 separate entries.
// Comments and blank lines are dropped; any other line that fits no rule
// rejects the whole plan.
/// One parsed plan line.
#[derive(Debug, PartialEq, Eq)]
pub enum Line {
    Commit(Commit),
    Branch(Branch),
    Test(String),
}

/// A commit line: the commit's identity (normalized to lowercase hex) and
/// its title.
#[derive(Debug, PartialEq, Eq)]
pub struct Commit {
    pub sha: String,
    pub title: String,
}

/// A target line: an optional remote name and the branch to push to.
#[derive(Debug, PartialEq, Eq)]
pub struct Branch {
    pub origin: Option<String>,
    pub name: String,
}

/// The spec-level form of one plan line.
pub ghost enum LineV {
    CommitL { sha: Seq<char>, title: Seq<char> },
    BranchL { origin: Option<Seq<char>>, name: Seq<char> },
    TestL { cmd: Seq<char> },
}

impl View for Line {
    type V = LineV;

    open spec fn view(&self) -> LineV {
        match self {
            Line::Commit(c) => LineV::CommitL { sha: c.sha@, title: c.title@ },
            Line::Branch(b) => LineV::BranchL {
                origin: match b.origin {
                    Some(o) => Some(o@),
                    None => None,
                },
                name: b.name@,
            },
            Line::Test(t) => LineV::TestL { cmd: t@ },
        }
    }
}

impl DeepView for Line {
    type V = LineV;

    open spec fn deep_view(&self) -> LineV {
        self.view()
    }
}

/// What one raw text line is: a skipped line, a plan line, or out of the
/// grammar.
pub ghost enum LineClass {
    Blank,
    Comment,
    Entry(LineV),
    Bad,
}

/// Hexadecimal digit, lowercase or uppercase.
pub open spec fn spec_is_hex_ext(c: char) -> bool {
    spec_is_hex_char(c) || ('A' <= c && c <= 'F')
}

/// Count of leading spaces.
pub open spec fn leading_spaces(s: Seq<char>) -> int
    decreases s.len(),
{
    if s.len() == 0 || s[0] != ' ' {
        0
    } else {
        1 + leading_spaces(s.skip(1))
    }
}

pub proof fn lemma_leading_spaces_bounds(s: Seq<char>)
    ensures
        0 <= leading_spaces(s) <= s.len(),
        forall|k: int| 0 <= k < leading_spaces(s) ==> s[k] == ' ',
        leading_spaces(s) < s.len() ==> s[leading_spaces(s)] != ' ',
    decreases s.len(),
{
    if s.len() == 0 || s[0] != ' ' {
    } else {
        lemma_leading_spaces_bounds(s.skip(1));
        assert forall|k: int| 0 <= k < leading_spaces(s) implies s[k] == ' ' by {
            if k > 0 {
                assert(s.skip(1)[k - 1] == ' ');
            }
        }
        if leading_spaces(s) < s.len() {
            assert(s[leading_spaces(s)] == s.skip(1)[leading_spaces(s) - 1]);
        }
    }
}

/// Index of the first colon in `s`, or `s.len()` when there is none.
pub open spec fn first_colon(s: Seq<char>) -> int
    decreases s.len(),
{
    if s.len() == 0 {
        0
    } else if s[0] == ':' {
        0
    } else {
        1 + first_colon(s.skip(1))
    }
}

pub proof fn lemma_first_colon_bounds(s: Seq<char>)
    ensures
        0 <= first_colon(s) <= s.len(),
        forall|k: int| 0 <= k < first_colon(s) ==> s[k] != ':',
        first_colon(s) < s.len() ==> s[first_colon(s)] == ':',
    decreases s.len(),
{
    if s.len() == 0 {
    } else if s[0] == ':' {
    } else {
        lemma_first_colon_bounds(s.skip(1));
        assert forall|k: int| 0 <= k < first_colon(s) implies s[k] != ':' by {
            if k > 0 {
                assert(s.skip(1)[k - 1] != ':');
            }
        }
        if first_colon(s) < s.len() {
            assert(s[first_colon(s)] == s.skip(1)[first_colon(s) - 1]);
        }
    }
}

pub proof fn lemma_first_colon_is(s: Seq<char>, m: int)
    requires
        0 <= m <= s.len(),
        forall|k: int| 0 <= k < m ==> s[k] != ':',
        m < s.len() ==> s[m] == ':',
    ensures
        first_colon(s) == m,
    decreases s.len(),
{
    if s.len() == 0 {
    } else if m == 0 {
        lemma_first_colon_bounds(s);
    } else {
        assert(s[0] != ':');
        assert forall|k: int| 0 <= k < m - 1 implies s.skip(1)[k] != ':' by {
            assert(s.skip(1)[k] == s[k + 1]);
        }
        assert(m - 1 < s.skip(1).len() ==> s.skip(1)[m - 1] == ':');
        lemma_first_colon_is(s.skip(1), m - 1);
    }
}

/// A target line after the arrow: skip spaces, then `[origin:]branch`.
pub open spec fn classify_target(l: Seq<char>) -> LineClass {
    let rest = l.skip(2);
    let tok = rest.skip(leading_spaces(rest));
    if tok.len() == 0 {
        LineClass::Bad
    } else {
        let i = first_colon(tok);
        if !(0 <= i && i < tok.len()) {
            LineClass::Entry(LineV::BranchL { origin: None, name: tok })
        } else {
            let o = tok.take(i);
            let b = tok.skip(i + 1);
            if o.len() == 0 || b.len() == 0 || first_colon(b) < b.len() {
                LineClass::Bad
            } else {
                LineClass::Entry(LineV::BranchL { origin: Some(o), name: b })
            }
        }
    }
}

/// A commit line: 40 hex digits, then optionally a space and the title.
pub open spec fn classify_commit(l: Seq<char>) -> LineClass {
    if l.len() < 40 {
        LineClass::Bad
    } else if exists|i: int| 0 <= i < 40 && !spec_is_hex_ext(l[i]) {
        LineClass::Bad
    } else {
        let sha = l.take(40).map_values(|c: char| spec_hex_lower(c));
        if l.len() == 40 {
            LineClass::Entry(LineV::CommitL { sha, title: Seq::empty() })
        } else if l[40] == ' ' {
            LineClass::Entry(LineV::CommitL { sha, title: l.skip(41) })
        } else {
            LineClass::Bad
        }
    }
}

pub open spec fn spec_classify_line(l: Seq<char>) -> LineClass {
    if spec_is_blank(l) {
        LineClass::Blank
    } else if l[0] == '#' {
        LineClass::Comment
    } else if l.len() >= 2 && l[0] == '-' && l[1] == '>' {
        classify_target(l)
    } else if l[0] == '$' {
        if l.len() >= 2 && l[1] == ' ' {
            LineClass::Entry(LineV::TestL { cmd: l.skip(2) })
        } else {
            LineClass::Entry(LineV::TestL { cmd: l.skip(1) })
        }
    } else {
        classify_commit(l)
    }
}

/// The plan lines of a list of raw lines: comments and blank lines are
/// dropped; a line out of the grammar rejects the whole list.
pub open spec fn spec_parse_lines(ls: Seq<Seq<char>>) -> Option<Seq<LineV>>
    decreases ls.len(),
{
    if ls.len() == 0 {
        Some(Seq::empty())
    } else {
        match spec_classify_line(ls[0]) {
            LineClass::Bad => None,
            LineClass::Blank => spec_parse_lines(ls.skip(1)),
            LineClass::Comment => spec_parse_lines(ls.skip(1)),
            LineClass::Entry(e) => match spec_parse_lines(ls.skip(1)) {
                None => None,
                Some(t) => Some(seq![e] + t),
            },
        }
    }
}

pub open spec fn spec_parse_file(s: Seq<char>) -> Option<Seq<LineV>> {
    spec_parse_lines(spec_lines_of(s))
}

/// The grammar of plans. `parse_file` turns an edited plan back into its
/// lines; rejection of any line rejects the whole plan.
pub struct Parser;

#[derive(Debug, PartialEq, Eq)]
pub enum ParserError {
    IsNotLine { line: String },
}

/// The classification of one raw line, executable form.
enum Classified {
    Blank,
    Comment,
    Entry(Line),
    Bad,
}

impl View for Classified {
    type V = LineClass;

    closed spec fn view(&self) -> LineClass {
        match self {
            Classified::Blank => LineClass::Blank,
            Classified::Comment => LineClass::Comment,
            Classified::Entry(l) => LineClass::Entry(l@),
            Classified::Bad => LineClass::Bad,
        }
    }
}

/// Count of leading spaces, from `from`.
fn count_spaces(v: &Vec<char>, from: usize) -> (r: usize)
    requires
        from <= v@.len(),
    ensures
        from <= r <= v@.len(),
        r - from == leading_spaces(v@.skip(from as int)),
{
    let ghost s = v@.skip(from as int);
    let mut i: usize = from;
    while i < v.len() && v[i] == ' '
        invariant
            from <= i <= v@.len(),
            forall|k: int| from <= k < i ==> v@[k] == ' ',
        decreases v.len() - i,
    {
        i += 1;
    }
    proof {
        lemma_leading_spaces_is(s, i - from);
        assert forall|k: int| 0 <= k < i - from implies s[k] == ' ' by {
            assert(s[k] == v@[from + k]);
        }
        lemma_leading_spaces_is(s, i - from);
    }
    i
}

pub proof fn lemma_leading_spaces_is(s: Seq<char>, m: int)
    requires
        0 <= m <= s.len(),
        forall|k: int| 0 <= k < m ==> s[k] == ' ',
        m < s.len() ==> s[m] != ' ',
    ensures
        leading_spaces(s) == m,
    decreases s.len(),
{
    if s.len() == 0 {
    } else if m == 0 {
        lemma_leading_spaces_bounds(s);
    } else {
        assert(s[0] == ' ');
        assert forall|k: int| 0 <= k < m - 1 implies s.skip(1)[k] == ' ' by {
            assert(s.skip(1)[k] == s[k + 1]);
        }
        assert(m - 1 < s.skip(1).len() ==> s.skip(1)[m - 1] != ' ');
        lemma_leading_spaces_is(s.skip(1), m - 1);
    }
}

/// Index of the first colon at or after `from`, or the length.
fn find_colon(v: &Vec<char>, from: usize) -> (r: usize)
    requires
        from <= v@.len(),
    ensures
        from <= r <= v@.len(),
        r - from == first_colon(v@.skip(from as int)),
{
    let ghost s = v@.skip(from as int);
    let mut i: usize = from;
    while i < v.len() && v[i] != ':'
        invariant
            from <= i <= v@.len(),
            forall|k: int| from <= k < i ==> v@[k] != ':',
        decreases v.len() - i,
    {
        i += 1;
    }
    proof {
        assert forall|k: int| 0 <= k < i - from implies s[k] != ':' by {
            assert(s[k] == v@[from + k]);
        }
        if i < v@.len() {
            assert(s[i - from] == v@[i as int]);
        }
        lemma_first_colon_is(s, i - from);
    }
    i
}

/// Classify the target line `l` (which starts with `->`).
fn classify_target_exec(l: &Vec<char>) -> (r: Classified)
    requires
        l@.len() >= 2,
    ensures
        r@ == classify_target(l@),
{
    let ghost rest = l@.skip(2);
    let start = count_spaces(l, 2);
    let ghost tok = rest.skip(leading_spaces(rest));
    proof {
        assert(l@.skip(2).skip(leading_spaces(l@.skip(2))) =~= l@.skip(
            2 + leading_spaces(l@.skip(2)),
        ));
        assert(tok =~= l@.skip(start as int));
    }
    if start == l.len() {
        return Classified::Bad;
    }
    let c = find_colon(l, start);
    proof {
        assert(tok.len() > 0);
    }
    if c == l.len() {
        let name = string_from_range(l, start, l.len());
        proof {
            assert(name@ =~= tok);
            lemma_first_colon_bounds(tok);
        }
        Classified::Entry(Line::Branch(Branch { origin: None, name }))
    } else {
        proof {
            lemma_first_colon_bounds(tok);
            assert(first_colon(tok) == c - start < tok.len());
        }
        let ghost o = tok.take(first_colon(tok));
        let ghost b = tok.skip(first_colon(tok) + 1);
        let ghost bc = first_colon(b);
        let c2 = find_colon(l, c + 1);
        proof {
            assert(b =~= l@.skip(c + 1));
            assert(bc == c2 - c - 1);
        }
        if c == start || c + 1 == l.len() || c2 < l.len() {
            proof {
                lemma_first_colon_bounds(b);
                if c2 < l@.len() {
                    assert(first_colon(b) < b.len());
                } else {
                    assert(c == start || c + 1 == l@.len());
                    assert(o.len() == 0 || b.len() == 0);
                }
            }
            Classified::Bad
        } else {
            let origin = string_from_range(l, start, c);
            let name = string_from_range(l, c + 1, l.len());
            proof {
                assert(origin@ =~= o);
                assert(name@ =~= b);
                assert(first_colon(b) == b.len());
            }
            Classified::Entry(Line::Branch(Branch { origin: Some(origin), name }))
        }
    }
}

/// Classify the commit line `l`.
fn classify_commit_exec(l: &Vec<char>) -> (r: Classified)
    ensures
        r@ == classify_commit(l@),
{
    if l.len() < 40 {
        return Classified::Bad;
    }
    let mut sha = String::new();
    let mut i: usize = 0;
    while i < 40
        invariant
            i <= 40,
            l@.len() >= 40,
            forall|k: int| 0 <= k < i ==> spec_is_hex_ext(l@[k]),
            sha@ == l@.take(i as int).map_values(|c: char| spec_hex_lower(c)),
        decreases 40 - i,
    {
        let c = l[i];
        let lc = hex_lower(c);
        if !is_hex_char(lc) {
            return Classified::Bad;
        }
        push_char(&mut sha, lc);
        proof {
            assert(sha@ =~= l@.take(i + 1).map_values(|c: char| spec_hex_lower(c)));
        }
        i += 1;
    }
    proof {
        assert(l@.take(40) =~= l@.take(40int));
        assert(sha@ == l@.take(40).map_values(|c: char| spec_hex_lower(c)));
    }
    if l.len() == 40 {
        let title = String::new();
        proof {
            assert(title@ =~= Seq::<char>::empty());
        }
        Classified::Entry(Line::Commit(Commit { sha, title }))
    } else if l[40] == ' ' {
        let title = string_from_range(l, 41, l.len());
        proof {
            assert(title@ =~= l@.skip(41));
        }
        Classified::Entry(Line::Commit(Commit { sha, title }))
    } else {
        Classified::Bad
    }
}

/// Classify one raw line of an edited plan.
fn classify_line(l: &Vec<char>) -> (r: Classified)
    ensures
        r@ == spec_classify_line(l@),
{
    if is_blank(l) {
        return Classified::Blank;
    }
    let c0 = l[0];
    if c0 == '#' {
        Classified::Comment
    } else if l.len() >= 2 && c0 == '-' && l[1] == '>' {
        classify_target_exec(l)
    } else if c0 == '$' {
        if l.len() >= 2 && l[1] == ' ' {
            let cmd = string_from_range(l, 2, l.len());
            proof {
                assert(cmd@ =~= l@.skip(2));
            }
            Classified::Entry(Line::Test(cmd))
        } else {
            let cmd = string_from_range(l, 1, l.len());
            proof {
                assert(cmd@ =~= l@.skip(1));
            }
            Classified::Entry(Line::Test(cmd))
        }
    } else {
        classify_commit_exec(l)
    }
}

/// Prefix-append on an optional tail, for the parse loop's invariant.
pub open spec fn opt_prepend(pre: Seq<LineV>, tail: Option<Seq<LineV>>) -> Option<Seq<LineV>> {
    match tail {
        None => None,
        Some(t) => Some(pre + t),
    }
}

impl Parser {
    /// Parse an edited plan into its plan lines. The whole plan is rejected
    /// when any line is out of the grammar.
    pub fn parse_file(file: &str) -> (r: Result<Vec<Line>, ParserError>)
        ensures
            match r {
                Ok(lines) => spec_parse_file(file@) == Some(lines.deep_view()),
                Err(_) => spec_parse_file(file@) is None,
            },
    {
        let chars = chars_of(file);
        let raw = split_lines(&chars);
        let ghost all = raw.deep_view();
        let mut out: Vec<Line> = Vec::new();
        let mut i: usize = 0;
        proof {
            assert(all.skip(0) == all);
            assert(out.deep_view() =~~= Seq::<LineV>::empty());
            assert(spec_parse_lines(all) == opt_prepend(out.deep_view(), spec_parse_lines(all)));
        }
        while i < raw.len()
            invariant
                i <= raw@.len(),
                all == raw.deep_view(),
                all == spec_lines_of(file@),
                all.len() == raw@.len(),
                forall|k: int| 0 <= k < all.len() ==> all[k] == raw@[k]@,
                spec_parse_lines(all) == opt_prepend(
                    out.deep_view(),
                    spec_parse_lines(all.skip(i as int)),
                ),
            decreases raw.len() - i,
        {
            let line = &raw[i];
            let cl = classify_line(line);
            proof {
                assert(all.skip(i as int)[0] == all[i as int]);
                assert(all.skip(i as int).skip(1) =~~= all.skip(i + 1));
            }
            match cl {
                Classified::Blank => {},
                Classified::Comment => {},
                Classified::Entry(e) => {
                    let ghost old_out = out.deep_view();
                    let ghost ev = e@;
                    out.push(e);
                    proof {
                        assert(out.deep_view() =~~= old_out + seq![ev]);
                        assert(spec_parse_lines(all.skip(i as int)) == match spec_parse_lines(
                            all.skip(i + 1),
                        ) {
                            None => None::<Seq<LineV>>,
                            Some(t) => Some(seq![ev] + t),
                        });
                        match spec_parse_lines(all.skip(i + 1)) {
                            None => {},
                            Some(t) => {
                                assert(old_out + (seq![ev] + t) =~~= (old_out + seq![ev]) + t);
                            },
                        }
                    }
                },
                Classified::Bad => {
                    proof {
                        assert(spec_parse_lines(all.skip(i as int)) is None);
                    }
                    let bad = string_from_range(line, 0, line.len());
                    return Err(ParserError::IsNotLine { line: bad });
                },
            }
            i += 1;
        }
        proof {
            assert(all.skip(all.len() as int) =~~= Seq::<Seq<char>>::empty());
            assert(spec_parse_lines(all) == Some(out.deep_view() + Seq::<LineV>::empty()));
            assert(out.deep_view() + Seq::<LineV>::empty() =~~= out.deep_view());
        }
        Ok(out)
    }
}

} // verus!
