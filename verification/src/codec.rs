use vstd::prelude::*;

verus! {

use crate::note::{Note, NoteV, Push, PushV};
use crate::textutil::push_char;
use vstd::string::StringExecFns;

// The wire format of a persisted record: one JSON object,
//   {"push":{"origin":<string|null>,"branch":<string>}|null,
//    "tests":[<string>,...]}
// written with this exact key order and without spacing, so that a
// record round-trips through the store byte for byte. Strings escape
// backslash and quote; a string holding a control character cannot be
// encoded, which is a local, per-commit error.
/// Characters a stored string may hold: everything but control
/// characters.
pub open spec fn spec_char_ok(c: char) -> bool {
    !(c < ' ')
}

pub open spec fn spec_str_ok(s: Seq<char>) -> bool {
    forall|i: int| 0 <= i < s.len() ==> spec_char_ok(#[trigger] s[i])
}

/// A record whose strings can all be encoded.
pub open spec fn note_encodable(n: NoteV) -> bool {
    &&& match n.push {
        Some(p) => spec_str_ok(p.branch) && match p.origin {
            Some(o) => spec_str_ok(o),
            None => true,
        },
        None => true,
    }
    &&& forall|i: int| 0 <= i < n.tests.len() ==> spec_str_ok(#[trigger] n.tests[i])
}

/// A string's characters with backslash and quote escaped.
pub open spec fn esc(s: Seq<char>) -> Seq<char>
    decreases s.len(),
{
    if s.len() == 0 {
        Seq::empty()
    } else {
        let head: Seq<char> = if s[0] == '\\' || s[0] == '"' {
            seq!['\\', s[0]]
        } else {
            seq![s[0]]
        };
        head + esc(s.skip(1))
    }
}

pub proof fn lemma_esc_concat(a: Seq<char>, b: Seq<char>)
    ensures
        esc(a + b) == esc(a) + esc(b),
    decreases a.len(),
{
    if a.len() == 0 {
        assert(a + b == b);
        assert(esc(a) + esc(b) =~= esc(b));
    } else {
        assert((a + b)[0] == a[0]);
        assert((a + b).skip(1) == a.skip(1) + b);
        lemma_esc_concat(a.skip(1), b);
        let head: Seq<char> = if a[0] == '\\' || a[0] == '"' {
            seq!['\\', a[0]]
        } else {
            seq![a[0]]
        };
        assert(head + (esc(a.skip(1)) + esc(b)) =~= (head + esc(a.skip(1))) + esc(b));
    }
}

/// A quoted, escaped JSON string.
pub open spec fn jstr(s: Seq<char>) -> Seq<char> {
    seq!['"'] + esc(s) + seq!['"']
}

pub open spec fn lit_null() -> Seq<char> {
    seq!['n', 'u', 'l', 'l']
}

pub open spec fn lit_push_key() -> Seq<char> {
    seq!['{', '"', 'p', 'u', 's', 'h', '"', ':']
}

pub open spec fn lit_origin_key() -> Seq<char> {
    seq!['{', '"', 'o', 'r', 'i', 'g', 'i', 'n', '"', ':']
}

pub open spec fn lit_branch_key() -> Seq<char> {
    seq![',', '"', 'b', 'r', 'a', 'n', 'c', 'h', '"', ':']
}

pub open spec fn lit_tests_key() -> Seq<char> {
    seq![',', '"', 't', 'e', 's', 't', 's', '"', ':', '[']
}

/// The encoded push target.
pub open spec fn spec_encode_push(p: Option<PushV>) -> Seq<char> {
    match p {
        None => lit_null(),
        Some(p) => lit_origin_key() + (match p.origin {
            None => lit_null(),
            Some(o) => jstr(o),
        }) + lit_branch_key() + jstr(p.branch) + seq!['}'],
    }
}

/// The encoded test list after the first element: a comma before each
/// further string.
pub open spec fn spec_encode_more_tests(ts: Seq<Seq<char>>) -> Seq<char>
    decreases ts.len(),
{
    if ts.len() == 0 {
        Seq::empty()
    } else {
        seq![','] + jstr(ts[0]) + spec_encode_more_tests(ts.skip(1))
    }
}

/// The encoded test list, without its brackets.
pub open spec fn spec_encode_tests(ts: Seq<Seq<char>>) -> Seq<char> {
    if ts.len() == 0 {
        Seq::empty()
    } else {
        jstr(ts[0]) + spec_encode_more_tests(ts.skip(1))
    }
}

/// The encoded record.
pub open spec fn spec_encode_note(n: NoteV) -> Seq<char> {
    lit_push_key() + spec_encode_push(n.push) + lit_tests_key() + spec_encode_tests(n.tests)
        + seq![']', '}']
}

/// Whether every character of `s` may appear in a stored string.
fn str_ok(s: &String) -> (r: bool)
    ensures
        r == spec_str_ok(s@),
{
    let v = crate::textutil::chars_of(s.as_str());
    let mut i: usize = 0;
    while i < v.len()
        invariant
            i <= v@.len(),
            v@ == s@,
            forall|k: int| 0 <= k < i ==> spec_char_ok(#[trigger] s@[k]),
        decreases v.len() - i,
    {
        let c = v[i];
        if !(c >= ' ') {
            return false;
        }
        i += 1;
    }
    true
}

/// Append the escaped, quoted form of `s`.
fn put_jstr(out: &mut String, s: &String)
    ensures
        final(out)@ == old(out)@ + jstr(s@),
{
    let v = crate::textutil::chars_of(s.as_str());
    push_char(out, '"');
    let ghost base = out@;
    let mut i: usize = 0;
    proof {
        assert(base + esc(s@.take(0)) =~= base);
    }
    while i < v.len()
        invariant
            i <= v@.len(),
            v@ == s@,
            out@ == base + esc(s@.take(i as int)),
        decreases v.len() - i,
    {
        let c = v[i];
        let ghost before = out@;
        if c == '\\' || c == '"' {
            push_char(out, '\\');
            push_char(out, c);
        } else {
            push_char(out, c);
        }
        proof {
            let head: Seq<char> = if c == '\\' || c == '"' {
                seq!['\\', c]
            } else {
                seq![c]
            };
            assert(out@ =~= before + head);
            assert(s@.take(i + 1) =~= s@.take(i as int) + seq![c]);
            lemma_esc_concat(s@.take(i as int), seq![c]);
            assert(seq![c].skip(1) =~= Seq::<char>::empty());
            assert(esc(Seq::<char>::empty()) == Seq::<char>::empty());
            assert(seq![c][0] == c);
            assert(esc(seq![c]) =~= head);
            assert(out@ =~= base + esc(s@.take(i + 1)));
        }
        i += 1;
    }
    push_char(out, '"');
    proof {
        assert(s@.take(s@.len() as int) =~= s@);
        assert(out@ =~= old(out)@ + jstr(s@));
    }
}

/// Append a fixed piece of the wire format.
fn put_lit(out: &mut String, piece: &str)
    ensures
        final(out)@ == old(out)@ + piece@,
{
    out.append(piece);
}

/// Encode a record in the wire format. `None` exactly when some string of
/// the record holds a control character; such a record cannot be
/// persisted.
pub fn encode_note(n: &Note) -> (r: Option<String>)
    ensures
        match r {
            Some(s) => note_encodable(n@) && s@ == spec_encode_note(n@),
            None => !note_encodable(n@),
        },
{
    match &n.push {
        Some(p) => {
            if !str_ok(&p.branch) {
                return None;
            }
            match &p.origin {
                Some(o) => {
                    if !str_ok(o) {
                        return None;
                    }
                },
                None => {},
            }
        },
        None => {},
    }
    let mut i: usize = 0;
    while i < n.tests.len()
        invariant
            i <= n.tests@.len(),
            forall|k: int| 0 <= k < i ==> spec_str_ok(#[trigger] n.tests@[k]@),
        decreases n.tests.len() - i,
    {
        if !str_ok(&n.tests[i]) {
            proof {
                assert(n@.tests[i as int] == n.tests@[i as int]@);
            }
            return None;
        }
        i += 1;
    }
    proof {
        assert(forall|k: int| 0 <= k < n@.tests.len() ==> spec_str_ok(#[trigger] n@.tests[k]));
        assert(note_encodable(n@));
    }
    let mut out = String::new();
    put_lit(&mut out, "{\"push\":");
    proof {
        reveal_strlit("{\"push\":");
        assert(out@ =~= lit_push_key());
    }
    match &n.push {
        None => {
            put_lit(&mut out, "null");
            proof {
                reveal_strlit("null");
                assert(out@ =~= lit_push_key() + spec_encode_push(n@.push));
            }
        },
        Some(p) => {
            put_lit(&mut out, "{\"origin\":");
            proof {
                reveal_strlit("{\"origin\":");
            }
            match &p.origin {
                None => {
                    put_lit(&mut out, "null");
                    proof {
                        reveal_strlit("null");
                    }
                },
                Some(o) => {
                    put_jstr(&mut out, o);
                },
            }
            put_lit(&mut out, ",\"branch\":");
            put_jstr(&mut out, &p.branch);
            put_lit(&mut out, "}");
            proof {
                reveal_strlit(",\"branch\":");
                reveal_strlit("}");
                assert("}"@ =~= seq!['}']);
                assert(",\"branch\":"@ =~= lit_branch_key());
                assert(out@ =~= lit_push_key() + spec_encode_push(n@.push));
            }
        },
    }
    let ghost head = out@;
    put_lit(&mut out, ",\"tests\":[");
    proof {
        reveal_strlit(",\"tests\":[");
        assert(out@ =~= head + lit_tests_key());
    }
    let ghost base = out@;
    let mut k: usize = 0;
    while k < n.tests.len()
        invariant
            k <= n.tests@.len(),
            n@.tests.len() == n.tests@.len(),
            forall|m: int| 0 <= m < n@.tests.len() ==> n@.tests[m] == #[trigger] n.tests@[m]@,
            out@ == base + spec_encode_tests(n@.tests.take(k as int)),
        decreases n.tests.len() - k,
    {
        let ghost before = out@;
        if k > 0 {
            put_lit(&mut out, ",");
            proof {
                reveal_strlit(",");
            }
        }
        put_jstr(&mut out, &n.tests[k]);
        proof {
            let ts = n@.tests;
            if k == 0 {
                assert(ts.take(1) =~~= seq![ts[0]]);
                assert(spec_encode_tests(seq![ts[0]]) =~= jstr(ts[0])) by {
                    assert(seq![ts[0]].skip(1) =~~= Seq::<Seq<char>>::empty());
                    assert(spec_encode_more_tests(Seq::<Seq<char>>::empty()) == Seq::<char>::empty());
                }
                assert(out@ =~= base + spec_encode_tests(ts.take(1)));
            } else {
                assert(out@ =~= before + (seq![','] + jstr(ts[k as int])));
                lemma_encode_tests_snoc(ts.take(k as int), ts[k as int]);
                assert(ts.take(k as int).push(ts[k as int]) =~~= ts.take(k + 1));
                assert(out@ =~= base + spec_encode_tests(ts.take(k + 1)));
            }
        }
        k += 1;
    }
    put_lit(&mut out, "]}");
    proof {
        reveal_strlit("]}");
        assert("]}"@ =~= seq![']', '}']);
        assert(n@.tests.take(n@.tests.len() as int) =~~= n@.tests);
        assert(out@ =~= spec_encode_note(n@));
    }
    Some(out)
}

/// Appending one test to a non-empty encoded list.
proof fn lemma_encode_tests_snoc(ts: Seq<Seq<char>>, t: Seq<char>)
    requires
        ts.len() > 0,
    ensures
        spec_encode_tests(ts.push(t)) == spec_encode_tests(ts) + (seq![','] + jstr(t)),
    decreases ts.len(),
{
    lemma_encode_more_tests_snoc(ts.skip(1), t);
    assert(ts.push(t)[0] == ts[0]);
    assert(ts.push(t).skip(1) =~~= ts.skip(1).push(t));
    assert(jstr(ts[0]) + (spec_encode_more_tests(ts.skip(1)) + (seq![','] + jstr(t))) =~= (jstr(
        ts[0],
    ) + spec_encode_more_tests(ts.skip(1))) + (seq![','] + jstr(t)));
}

// ---------------------------------------------------------------------
// Decoding.
// ---------------------------------------------------------------------
/// Consume a fixed token from the front, or fail.
pub open spec fn expect(s: Seq<char>, tok: Seq<char>) -> Option<Seq<char>> {
    if tok.len() <= s.len() && s.take(tok.len() as int) == tok {
        Some(s.skip(tok.len() as int))
    } else {
        None
    }
}

/// The characters of a JSON string after its opening quote: plain
/// characters and the two escapes, up to the closing quote.
pub open spec fn parse_jchars(s: Seq<char>) -> Option<(Seq<char>, Seq<char>)>
    decreases s.len(),
{
    if s.len() == 0 {
        None
    } else if s[0] == '"' {
        Some((Seq::empty(), s.skip(1)))
    } else if s[0] == '\\' {
        if s.len() >= 2 && (s[1] == '\\' || s[1] == '"') {
            match parse_jchars(s.skip(2)) {
                None => None,
                Some((v, r)) => Some((seq![s[1]] + v, r)),
            }
        } else {
            None
        }
    } else if !spec_char_ok(s[0]) {
        None
    } else {
        match parse_jchars(s.skip(1)) {
            None => None,
            Some((v, r)) => Some((seq![s[0]] + v, r)),
        }
    }
}

/// A quoted JSON string from the front of `s`.
pub open spec fn parse_jstr(s: Seq<char>) -> Option<(Seq<char>, Seq<char>)> {
    if s.len() > 0 && s[0] == '"' {
        parse_jchars(s.skip(1))
    } else {
        None
    }
}

/// The push field: `null`, or an object with origin and branch.
pub open spec fn parse_push(s: Seq<char>) -> Option<(Option<PushV>, Seq<char>)> {
    match expect(s, lit_null()) {
        Some(r) => Some((None, r)),
        None => match expect(s, lit_origin_key()) {
            None => None,
            Some(r1) => {
                let origin_parsed: Option<(Option<Seq<char>>, Seq<char>)> = match expect(
                    r1,
                    lit_null(),
                ) {
                    Some(r2) => Some((None, r2)),
                    None => match parse_jstr(r1) {
                        None => None,
                        Some((o, r2)) => Some((Some(o), r2)),
                    },
                };
                match origin_parsed {
                    None => None,
                    Some((o, r2)) => match expect(r2, lit_branch_key()) {
                        None => None,
                        Some(r3) => match parse_jstr(r3) {
                            None => None,
                            Some((b, r4)) => match expect(r4, seq!['}']) {
                                None => None,
                                Some(r5) => Some((Some(PushV { origin: o, branch: b }), r5)),
                            },
                        },
                    },
                }
            },
        },
    }
}

/// The test strings after the first, each preceded by a comma, up to the
/// closing bracket.
pub open spec fn parse_more_tests(s: Seq<char>, acc: Seq<Seq<char>>) -> Option<
    (Seq<Seq<char>>, Seq<char>),
>
    decreases s.len(),
{
    match expect(s, seq![']']) {
        Some(r) => Some((acc, r)),
        None => match expect(s, seq![',']) {
            None => None,
            Some(r1) => match parse_jstr(r1) {
                None => None,
                Some((t, r2)) => if r2.len() < s.len() {
                    parse_more_tests(r2, acc.push(t))
                } else {
                    None
                },
            },
        },
    }
}

/// The test list after its opening bracket, including the closing one.
pub open spec fn parse_tests(s: Seq<char>) -> Option<(Seq<Seq<char>>, Seq<char>)> {
    match expect(s, seq![']']) {
        Some(r) => Some((Seq::empty(), r)),
        None => match parse_jstr(s) {
            None => None,
            Some((t, r)) => parse_more_tests(r, seq![t]),
        },
    }
}

/// A whole record in the wire format, with nothing following it.
pub open spec fn spec_parse_note(s: Seq<char>) -> Option<NoteV> {
    match expect(s, lit_push_key()) {
        None => None,
        Some(r1) => match parse_push(r1) {
            None => None,
            Some((p, r2)) => match expect(r2, lit_tests_key()) {
                None => None,
                Some(r3) => match parse_tests(r3) {
                    None => None,
                    Some((ts, r4)) => match expect(r4, seq!['}']) {
                        None => None,
                        Some(r5) => if r5.len() == 0 {
                            Some(NoteV { push: p, tests: ts })
                        } else {
                            None
                        },
                    },
                },
            },
        },
    }
}

/// Consume the token at position `i`, executable form.
fn exec_expect(v: &Vec<char>, i: usize, tok: &Vec<char>) -> (r: Option<usize>)
    requires
        i <= v@.len(),
    ensures
        match r {
            Some(j) => i <= j <= v@.len() && j == i + tok@.len() && expect(v@.skip(i as int), tok@)
                == Some(v@.skip(j as int)),
            None => expect(v@.skip(i as int), tok@) is None,
        },
{
    if v.len() - i < tok.len() {
        return None;
    }
    let mut k: usize = 0;
    while k < tok.len()
        invariant
            k <= tok@.len(),
            i + tok@.len() <= v@.len(),
            v@.len() <= usize::MAX,
            forall|m: int| 0 <= m < k ==> v@[i + m] == tok@[m],
        decreases tok.len() - k,
    {
        proof {
            assert(i + k < v@.len());
        }
        if v[i + k] != tok[k] {
            proof {
                assert(v@.skip(i as int)[k as int] != tok@[k as int]);
                assert(v@.skip(i as int).take(tok@.len() as int)[k as int] != tok@[k as int]);
            }
            return None;
        }
        k += 1;
    }
    proof {
        assert(v@.skip(i as int).take(tok@.len() as int) =~= tok@);
        assert(v@.skip(i as int).skip(tok@.len() as int) =~= v@.skip(i + tok@.len()));
    }
    Some(i + tok.len())
}

/// The characters of a JSON string at position `i`, executable form.
fn exec_parse_jchars(v: &Vec<char>, i: usize) -> (r: Option<(String, usize)>)
    requires
        i <= v@.len(),
    ensures
        match r {
            Some((val, j)) => i <= j <= v@.len() && parse_jchars(v@.skip(i as int)) == Some(
                (val@, v@.skip(j as int)),
            ),
            None => parse_jchars(v@.skip(i as int)) is None,
        },
    decreases v@.len() - i,
{
    if i == v.len() {
        return None;
    }
    let c = v[i];
    proof {
        assert(v@.skip(i as int)[0] == c);
    }
    if c == '"' {
        let val = String::new();
        proof {
            assert(v@.skip(i as int).skip(1) =~= v@.skip(i + 1));
        }
        return Some((val, i + 1));
    }
    if c == '\\' {
        if v.len() - i < 2 {
            return None;
        }
        let e = v[i + 1];
        proof {
            assert(v@.skip(i as int)[1] == e);
        }
        if e == '\\' || e == '"' {
            proof {
                assert(v@.skip(i as int).skip(2) =~= v@.skip(i + 2));
            }
            match exec_parse_jchars(v, i + 2) {
                None => {
                    return None;
                },
                Some((tail, j)) => {
                    let mut val = String::new();
                    push_char(&mut val, e);
                    val.append(tail.as_str());
                    proof {
                        assert(val@ =~= seq![e] + tail@);
                    }
                    return Some((val, j));
                },
            }
        } else {
            return None;
        }
    }
    if !(c >= ' ') {
        return None;
    }
    proof {
        assert(v@.skip(i as int).skip(1) =~= v@.skip(i + 1));
    }
    match exec_parse_jchars(v, i + 1) {
        None => None,
        Some((tail, j)) => {
            let mut val = String::new();
            push_char(&mut val, c);
            val.append(tail.as_str());
            proof {
                assert(val@ =~= seq![c] + tail@);
            }
            Some((val, j))
        },
    }
}

/// A quoted JSON string at position `i`, executable form.
fn exec_parse_jstr(v: &Vec<char>, i: usize) -> (r: Option<(String, usize)>)
    requires
        i <= v@.len(),
    ensures
        match r {
            Some((val, j)) => i <= j <= v@.len() && parse_jstr(v@.skip(i as int)) == Some(
                (val@, v@.skip(j as int)),
            ),
            None => parse_jstr(v@.skip(i as int)) is None,
        },
{
    if i == v.len() {
        return None;
    }
    let c = v[i];
    proof {
        assert(v@.skip(i as int)[0] == c);
    }
    if c != '"' {
        return None;
    }
    proof {
        assert(v@.skip(i as int).skip(1) =~= v@.skip(i + 1));
    }
    exec_parse_jchars(v, i + 1)
}

/// The push field at position `i`, executable form.
fn exec_parse_push(v: &Vec<char>, i: usize) -> (r: Option<(Option<Push>, usize)>)
    requires
        i <= v@.len(),
    ensures
        match r {
            Some((ref p, j)) => i <= j <= v@.len() && parse_push(v@.skip(i as int)) == Some(
                (
                    match p {
                        Some(pp) => Some(pp@),
                        None => None,
                    },
                    v@.skip(j as int),
                ),
            ),
            None => parse_push(v@.skip(i as int)) is None,
        },
{
    let null_tok: Vec<char> = vec!['n', 'u', 'l', 'l'];
    proof {
        assert(null_tok@ =~= lit_null());
    }
    match exec_expect(v, i, &null_tok) {
        Some(j) => {
            return Some((None, j));
        },
        None => {},
    }
    let origin_tok: Vec<char> = vec!['{', '"', 'o', 'r', 'i', 'g', 'i', 'n', '"', ':'];
    proof {
        assert(origin_tok@ =~= lit_origin_key());
    }
    let r1 = match exec_expect(v, i, &origin_tok) {
        None => {
            return None;
        },
        Some(j) => j,
    };
    let (origin, r2): (Option<String>, usize) = match exec_expect(v, r1, &null_tok) {
        Some(j) => (None, j),
        None => {
            match exec_parse_jstr(v, r1) {
                None => {
                    return None;
                },
                Some((o, j)) => (Some(o), j),
            }
        },
    };
    let branch_tok: Vec<char> = vec![',', '"', 'b', 'r', 'a', 'n', 'c', 'h', '"', ':'];
    proof {
        assert(branch_tok@ =~= lit_branch_key());
    }
    let r3 = match exec_expect(v, r2, &branch_tok) {
        None => {
            return None;
        },
        Some(j) => j,
    };
    let (branch, r4) = match exec_parse_jstr(v, r3) {
        None => {
            return None;
        },
        Some(x) => x,
    };
    let close_tok: Vec<char> = vec!['}'];
    proof {
        assert(close_tok@ =~= seq!['}']);
    }
    match exec_expect(v, r4, &close_tok) {
        None => None,
        Some(r5) => Some((Some(Push { origin, branch }), r5)),
    }
}

/// The test strings after the first, executable form.
fn exec_parse_more_tests(v: &Vec<char>, i: usize, acc: Vec<String>) -> (r: Option<
    (Vec<String>, usize),
>)
    requires
        i <= v@.len(),
    ensures
        match r {
            Some((ref ts, j)) => i <= j <= v@.len() && parse_more_tests(
                v@.skip(i as int),
                acc.deep_view(),
            ) == Some((ts.deep_view(), v@.skip(j as int))),
            None => parse_more_tests(v@.skip(i as int), acc.deep_view()) is None,
        },
    decreases v@.len() - i,
{
    let bracket_tok: Vec<char> = vec![']'];
    proof {
        assert(bracket_tok@ =~= seq![']']);
    }
    match exec_expect(v, i, &bracket_tok) {
        Some(j) => {
            return Some((acc, j));
        },
        None => {},
    }
    let comma_tok: Vec<char> = vec![','];
    proof {
        assert(comma_tok@ =~= seq![',']);
    }
    let r1 = match exec_expect(v, i, &comma_tok) {
        None => {
            return None;
        },
        Some(j) => j,
    };
    let (t, r2) = match exec_parse_jstr(v, r1) {
        None => {
            return None;
        },
        Some(x) => x,
    };
    if r2 <= i {
        proof {
            assert(v@.skip(r1 as int).len() < v@.skip(i as int).len());
            assert(v@.skip(r2 as int).len() <= v@.skip(r1 as int).len());
            assert(false);
        }
    }
    let ghost old_acc = acc.deep_view();
    let ghost tv = t@;
    let mut acc = acc;
    acc.push(t);
    proof {
        assert(acc.deep_view() =~~= old_acc.push(tv));
        assert(v@.skip(r2 as int).len() < v@.skip(i as int).len());
    }
    exec_parse_more_tests(v, r2, acc)
}

/// The test list at position `i`, executable form.
fn exec_parse_tests(v: &Vec<char>, i: usize) -> (r: Option<(Vec<String>, usize)>)
    requires
        i <= v@.len(),
    ensures
        match r {
            Some((ref ts, j)) => i <= j <= v@.len() && parse_tests(v@.skip(i as int)) == Some(
                (ts.deep_view(), v@.skip(j as int)),
            ),
            None => parse_tests(v@.skip(i as int)) is None,
        },
{
    let bracket_tok: Vec<char> = vec![']'];
    proof {
        assert(bracket_tok@ =~= seq![']']);
    }
    match exec_expect(v, i, &bracket_tok) {
        Some(j) => {
            let ts: Vec<String> = Vec::new();
            proof {
                assert(ts.deep_view() =~~= Seq::<Seq<char>>::empty());
            }
            return Some((ts, j));
        },
        None => {},
    }
    let (t, r) = match exec_parse_jstr(v, i) {
        None => {
            return None;
        },
        Some(x) => x,
    };
    let ghost tv = t@;
    let mut acc: Vec<String> = Vec::new();
    acc.push(t);
    proof {
        assert(acc.deep_view() =~~= seq![tv]);
    }
    exec_parse_more_tests(v, r, acc)
}

/// Parse a record in the wire format. `None` exactly when the text is not
/// a record; the caller treats that as a local, per-commit error.
pub fn parse_note(s: &str) -> (r: Option<Note>)
    ensures
        match r {
            Some(ref n) => spec_parse_note(s@) == Some(n@),
            None => spec_parse_note(s@) is None,
        },
{
    let v = crate::textutil::chars_of(s);
    proof {
        assert(v@.skip(0) == v@);
    }
    let push_tok: Vec<char> = vec!['{', '"', 'p', 'u', 's', 'h', '"', ':'];
    proof {
        assert(push_tok@ =~= lit_push_key());
    }
    let r1 = match exec_expect(&v, 0, &push_tok) {
        None => {
            return None;
        },
        Some(j) => j,
    };
    let (push, r2) = match exec_parse_push(&v, r1) {
        None => {
            return None;
        },
        Some(x) => x,
    };
    let tests_tok: Vec<char> = vec![',', '"', 't', 'e', 's', 't', 's', '"', ':', '['];
    proof {
        assert(tests_tok@ =~= lit_tests_key());
    }
    let r3 = match exec_expect(&v, r2, &tests_tok) {
        None => {
            return None;
        },
        Some(j) => j,
    };
    let (tests, r4) = match exec_parse_tests(&v, r3) {
        None => {
            return None;
        },
        Some(x) => x,
    };
    let close_tok: Vec<char> = vec!['}'];
    proof {
        assert(close_tok@ =~= seq!['}']);
    }
    let r5 = match exec_expect(&v, r4, &close_tok) {
        None => {
            return None;
        },
        Some(j) => j,
    };
    if r5 != v.len() {
        proof {
            assert(v@.skip(r5 as int).len() != 0);
        }
        return None;
    }
    proof {
        assert(v@.skip(r5 as int).len() == 0);
    }
    Some(Note { push, tests })
}

// ---------------------------------------------------------------------
// Round trip of the wire format.
// ---------------------------------------------------------------------
proof fn lemma_expect_prefix(tok: Seq<char>, rest: Seq<char>)
    ensures
        expect(tok + rest, tok) == Some(rest),
{
    let s = tok + rest;
    assert(s.take(tok.len() as int) =~= tok);
    assert(s.skip(tok.len() as int) =~= rest);
}

proof fn lemma_expect_mismatch(s: Seq<char>, tok: Seq<char>)
    requires
        s.len() > 0,
        tok.len() > 0,
        s[0] != tok[0],
    ensures
        expect(s, tok) is None,
{
    if tok.len() <= s.len() {
        assert(s.take(tok.len() as int)[0] == s[0]);
    }
}

proof fn lemma_parse_jchars_esc(x: Seq<char>, rest: Seq<char>)
    requires
        spec_str_ok(x),
    ensures
        parse_jchars(esc(x) + seq!['"'] + rest) == Some((x, rest)),
    decreases x.len(),
{
    let s = esc(x) + seq!['"'] + rest;
    if x.len() == 0 {
        assert(esc(x) == Seq::<char>::empty());
        assert(s =~= seq!['"'] + rest);
        assert(s[0] == '"');
        assert(s.skip(1) =~= rest);
    } else {
        let c = x[0];
        assert(spec_char_ok(c));
        assert(spec_str_ok(x.skip(1))) by {
            assert(forall|i: int| 0 <= i < x.skip(1).len() ==> x.skip(1)[i] == x[i + 1]);
        }
        lemma_parse_jchars_esc(x.skip(1), rest);
        if c == '\\' || c == '"' {
            assert(esc(x) == seq!['\\', c] + esc(x.skip(1)));
            assert(s[0] == '\\');
            assert(s[1] == c);
            assert(s.len() >= 2);
            assert(s.skip(2) =~= esc(x.skip(1)) + seq!['"'] + rest);
            assert(parse_jchars(s) == Some((seq![c] + x.skip(1), rest)));
            assert(seq![c] + x.skip(1) =~= x);
        } else {
            assert(esc(x) == seq![c] + esc(x.skip(1)));
            assert(s[0] == c);
            assert(c != '"' && c != '\\');
            assert(s.skip(1) =~= esc(x.skip(1)) + seq!['"'] + rest);
            assert(parse_jchars(s) == Some((seq![c] + x.skip(1), rest)));
            assert(seq![c] + x.skip(1) =~= x);
        }
    }
}

proof fn lemma_parse_jstr_enc(x: Seq<char>, rest: Seq<char>)
    requires
        spec_str_ok(x),
    ensures
        parse_jstr(jstr(x) + rest) == Some((x, rest)),
{
    let s = jstr(x) + rest;
    assert(s[0] == '"');
    assert(s.skip(1) =~= esc(x) + seq!['"'] + rest);
    lemma_parse_jchars_esc(x, rest);
}

#[verifier::rlimit(60)]
proof fn lemma_parse_push_enc(p: Option<PushV>, rest: Seq<char>)
    requires
        match p {
            Some(pp) => spec_str_ok(pp.branch) && match pp.origin {
                Some(o) => spec_str_ok(o),
                None => true,
            },
            None => true,
        },
    ensures
        parse_push(spec_encode_push(p) + rest) == Some((p, rest)),
{
    let s = spec_encode_push(p) + rest;
    match p {
        None => {
            assert(s =~= lit_null() + rest);
            lemma_expect_prefix(lit_null(), rest);
        },
        Some(pp) => {
            assert(s[0] == '{');
            lemma_expect_mismatch(s, lit_null());
            let origin_enc: Seq<char> = match pp.origin {
                None => lit_null(),
                Some(o) => jstr(o),
            };
            let tail1 = origin_enc + lit_branch_key() + jstr(pp.branch) + seq!['}'] + rest;
            assert(s =~= lit_origin_key() + tail1);
            lemma_expect_prefix(lit_origin_key(), tail1);
            let tail2 = lit_branch_key() + jstr(pp.branch) + seq!['}'] + rest;
            match pp.origin {
                None => {
                    assert(tail1 =~= lit_null() + tail2);
                    lemma_expect_prefix(lit_null(), tail2);
                },
                Some(o) => {
                    assert(tail1 =~= jstr(o) + tail2);
                    assert(tail1[0] == '"');
                    lemma_expect_mismatch(tail1, lit_null());
                    lemma_parse_jstr_enc(o, tail2);
                },
            }
            let tail3 = jstr(pp.branch) + seq!['}'] + rest;
            lemma_expect_prefix(lit_branch_key(), tail3);
            assert(tail2 =~= lit_branch_key() + tail3);
            let tail4 = seq!['}'] + rest;
            assert(tail3 =~= jstr(pp.branch) + tail4);
            lemma_parse_jstr_enc(pp.branch, tail4);
            lemma_expect_prefix(seq!['}'], rest);
            assert(PushV { origin: pp.origin, branch: pp.branch } == pp);
        },
    }
}

proof fn lemma_parse_more_tests_enc(ts: Seq<Seq<char>>, acc: Seq<Seq<char>>, rest: Seq<char>)
    requires
        forall|i: int| 0 <= i < ts.len() ==> spec_str_ok(#[trigger] ts[i]),
    ensures
        parse_more_tests(spec_encode_more_tests(ts) + seq![']'] + rest, acc) == Some(
            (acc + ts, rest),
        ),
    decreases ts.len(),
{
    let s = spec_encode_more_tests(ts) + seq![']'] + rest;
    if ts.len() == 0 {
        assert(s =~= seq![']'] + rest);
        lemma_expect_prefix(seq![']'], rest);
        assert(acc + ts =~~= acc);
    } else {
        let t = ts[0];
        assert(spec_encode_more_tests(ts) == seq![','] + jstr(t) + spec_encode_more_tests(
            ts.skip(1),
        ));
        assert(s[0] == ',');
        lemma_expect_mismatch(s, seq![']']);
        let tail1 = jstr(t) + spec_encode_more_tests(ts.skip(1)) + seq![']'] + rest;
        assert(s =~= seq![','] + tail1);
        lemma_expect_prefix(seq![','], tail1);
        let tail2 = spec_encode_more_tests(ts.skip(1)) + seq![']'] + rest;
        assert(tail1 =~= jstr(t) + tail2);
        assert(spec_str_ok(t));
        lemma_parse_jstr_enc(t, tail2);
        assert(tail2.len() < s.len()) by {
            assert(jstr(t).len() >= 2);
        }
        assert(forall|i: int| 0 <= i < ts.skip(1).len() ==> spec_str_ok(#[trigger] ts.skip(1)[i]))
            by {
            assert(forall|i: int| 0 <= i < ts.skip(1).len() ==> ts.skip(1)[i] == ts[i + 1]);
        }
        lemma_parse_more_tests_enc(ts.skip(1), acc.push(t), rest);
        assert(acc.push(t) + ts.skip(1) =~~= acc + ts);
    }
}

proof fn lemma_parse_tests_enc(ts: Seq<Seq<char>>, rest: Seq<char>)
    requires
        forall|i: int| 0 <= i < ts.len() ==> spec_str_ok(#[trigger] ts[i]),
    ensures
        parse_tests(spec_encode_tests(ts) + seq![']'] + rest) == Some((ts, rest)),
{
    let s = spec_encode_tests(ts) + seq![']'] + rest;
    if ts.len() == 0 {
        assert(s =~= seq![']'] + rest);
        lemma_expect_prefix(seq![']'], rest);
        assert(Seq::<Seq<char>>::empty() =~~= ts);
    } else {
        let t = ts[0];
        assert(spec_encode_tests(ts) == jstr(t) + spec_encode_more_tests(ts.skip(1)));
        assert(s[0] == '"');
        lemma_expect_mismatch(s, seq![']']);
        let tail = spec_encode_more_tests(ts.skip(1)) + seq![']'] + rest;
        assert(s =~= jstr(t) + tail);
        assert(spec_str_ok(t));
        lemma_parse_jstr_enc(t, tail);
        assert(forall|i: int| 0 <= i < ts.skip(1).len() ==> spec_str_ok(#[trigger] ts.skip(1)[i]))
            by {
            assert(forall|i: int| 0 <= i < ts.skip(1).len() ==> ts.skip(1)[i] == ts[i + 1]);
        }
        lemma_parse_more_tests_enc(ts.skip(1), seq![t], rest);
        assert(seq![t] + ts.skip(1) =~~= ts);
    }
}

/// The escaped form of a storable string holds no newline.
pub proof fn lemma_esc_no_nl(s: Seq<char>)
    requires
        spec_str_ok(s),
    ensures
        crate::textutil::no_nl(esc(s)),
    decreases s.len(),
{
    if s.len() == 0 {
    } else {
        assert(spec_str_ok(s.skip(1))) by {
            assert(forall|i: int| 0 <= i < s.skip(1).len() ==> s.skip(1)[i] == s[i + 1]);
        }
        lemma_esc_no_nl(s.skip(1));
        let head: Seq<char> = if s[0] == '\\' || s[0] == '"' {
            seq!['\\', s[0]]
        } else {
            seq![s[0]]
        };
        assert(spec_char_ok(s[0]));
        assert forall|i: int| 0 <= i < esc(s).len() implies esc(s)[i] != '\n' by {
            if i < head.len() {
                assert(esc(s)[i] == head[i]);
            } else {
                assert(esc(s)[i] == esc(s.skip(1))[i - head.len()]);
            }
        }
    }
}

/// The encoded form of an encodable record is one line.
pub proof fn lemma_encode_note_no_nl(n: NoteV)
    requires
        note_encodable(n),
    ensures
        crate::textutil::no_nl(spec_encode_note(n)),
{
    let s = spec_encode_note(n);
    assert forall|i: int| 0 <= i < s.len() implies s[i] != '\n' by {
        lemma_encode_note_char(n, i);
    }
}

proof fn lemma_encode_more_tests_no_nl(ts: Seq<Seq<char>>)
    requires
        forall|i: int| 0 <= i < ts.len() ==> spec_str_ok(#[trigger] ts[i]),
    ensures
        crate::textutil::no_nl(spec_encode_more_tests(ts)),
    decreases ts.len(),
{
    if ts.len() == 0 {
    } else {
        assert(forall|i: int| 0 <= i < ts.skip(1).len() ==> spec_str_ok(#[trigger] ts.skip(1)[i]))
            by {
            assert(forall|i: int| 0 <= i < ts.skip(1).len() ==> ts.skip(1)[i] == ts[i + 1]);
        }
        lemma_encode_more_tests_no_nl(ts.skip(1));
        lemma_esc_no_nl(ts[0]);
        let s = spec_encode_more_tests(ts);
        assert forall|i: int| 0 <= i < s.len() implies s[i] != '\n' by {
            let head = seq![','] + jstr(ts[0]);
            if i < head.len() {
                assert(s[i] == head[i]);
                if 1 <= i < 1 + jstr(ts[0]).len() {
                    assert(head[i] == jstr(ts[0])[i - 1]);
                    if 1 <= i - 1 < 1 + esc(ts[0]).len() {
                        assert(jstr(ts[0])[i - 1] == esc(ts[0])[i - 2]);
                    }
                }
            } else {
                assert(s[i] == spec_encode_more_tests(ts.skip(1))[i - head.len()]);
            }
        }
    }
}

proof fn lemma_jstr_no_nl(x: Seq<char>)
    requires
        spec_str_ok(x),
    ensures
        crate::textutil::no_nl(jstr(x)),
{
    lemma_esc_no_nl(x);
    assert forall|i: int| 0 <= i < jstr(x).len() implies jstr(x)[i] != '\n' by {
        if 1 <= i < 1 + esc(x).len() {
            assert(jstr(x)[i] == esc(x)[i - 1]);
        }
    }
}

proof fn lemma_encode_note_char(n: NoteV, i: int)
    requires
        note_encodable(n),
        0 <= i < spec_encode_note(n).len(),
    ensures
        spec_encode_note(n)[i] != '\n',
{
    let s = spec_encode_note(n);
    let a = lit_push_key();
    let b = spec_encode_push(n.push);
    let c = lit_tests_key();
    let d = spec_encode_tests(n.tests);
    match n.push {
        None => {},
        Some(p) => {
            lemma_jstr_no_nl(p.branch);
            match p.origin {
                Some(o) => {
                    lemma_jstr_no_nl(o);
                },
                None => {},
            }
            assert(crate::textutil::no_nl(b)) by {
                let oenc: Seq<char> = match p.origin {
                    None => lit_null(),
                    Some(o) => jstr(o),
                };
                assert forall|k: int| 0 <= k < b.len() implies b[k] != '\n' by {
                    let p1 = lit_origin_key();
                    let p2 = p1 + oenc;
                    let p3 = p2 + lit_branch_key();
                    let p4 = p3 + jstr(p.branch);
                    if k < p1.len() {
                        assert(b[k] == p1[k]);
                    } else if k < p2.len() {
                        assert(b[k] == oenc[k - p1.len()]);
                    } else if k < p3.len() {
                        assert(b[k] == lit_branch_key()[k - p2.len()]);
                    } else if k < p4.len() {
                        assert(b[k] == jstr(p.branch)[k - p3.len()]);
                    } else {
                        assert(b[k] == '}');
                    }
                }
            }
        },
    }
    assert(crate::textutil::no_nl(d)) by {
        if n.tests.len() == 0 {
        } else {
            lemma_jstr_no_nl(n.tests[0]);
            assert(forall|k: int|
                0 <= k < n.tests.skip(1).len() ==> spec_str_ok(#[trigger] n.tests.skip(1)[k]))
                by {
                assert(forall|k: int|
                    0 <= k < n.tests.skip(1).len() ==> n.tests.skip(1)[k] == n.tests[k + 1]);
            }
            lemma_encode_more_tests_no_nl(n.tests.skip(1));
            assert forall|k: int| 0 <= k < d.len() implies d[k] != '\n' by {
                if k < jstr(n.tests[0]).len() {
                    assert(d[k] == jstr(n.tests[0])[k]);
                } else {
                    assert(d[k] == spec_encode_more_tests(n.tests.skip(1))[k - jstr(
                        n.tests[0],
                    ).len()]);
                }
            }
        }
    }
    let q1 = a;
    let q2 = q1 + b;
    let q3 = q2 + c;
    let q4 = q3 + d;
    if i < q1.len() {
        assert(s[i] == a[i]);
    } else if i < q2.len() {
        assert(s[i] == b[i - q1.len()]);
    } else if i < q3.len() {
        assert(s[i] == c[i - q2.len()]);
    } else if i < q4.len() {
        assert(s[i] == d[i - q3.len()]);
    } else {
        assert(s[i] == seq![']', '}'][i - q4.len()]);
    }
}

/// Round trip of the wire format: parsing the encoded form of any
/// encodable record yields the record back, exactly.
pub proof fn lemma_note_codec_roundtrip(n: NoteV)
    requires
        note_encodable(n),
    ensures
        spec_parse_note(spec_encode_note(n)) == Some(n),
{
    let s = spec_encode_note(n);
    let tail1 = spec_encode_push(n.push) + lit_tests_key() + spec_encode_tests(n.tests) + seq![
        ']',
        '}',
    ];
    assert(s =~= lit_push_key() + tail1);
    lemma_expect_prefix(lit_push_key(), tail1);
    let tail2 = lit_tests_key() + spec_encode_tests(n.tests) + seq![']', '}'];
    assert(tail1 =~= spec_encode_push(n.push) + tail2);
    lemma_parse_push_enc(n.push, tail2);
    let tail3 = spec_encode_tests(n.tests) + seq![']', '}'];
    assert(tail2 =~= lit_tests_key() + tail3);
    lemma_expect_prefix(lit_tests_key(), tail3);
    let tail4 = seq!['}'];
    assert(tail3 =~= spec_encode_tests(n.tests) + seq![']'] + tail4);
    lemma_parse_tests_enc(n.tests, tail4);
    lemma_expect_prefix(seq!['}'], Seq::<char>::empty());
    assert(tail4 =~= seq!['}'] + Seq::<char>::empty());
    assert(NoteV { push: n.push, tests: n.tests } == n);
}

proof fn lemma_encode_more_tests_snoc(ts: Seq<Seq<char>>, t: Seq<char>)
    ensures
        spec_encode_more_tests(ts.push(t)) == spec_encode_more_tests(ts) + (seq![','] + jstr(t)),
    decreases ts.len(),
{
    if ts.len() == 0 {
        assert(ts.push(t)[0] == t);
        assert(ts.push(t).skip(1) =~~= Seq::<Seq<char>>::empty());
        assert(spec_encode_more_tests(ts.push(t)) == seq![','] + jstr(t) + spec_encode_more_tests(
            Seq::<Seq<char>>::empty(),
        ));
        assert(seq![','] + jstr(t) + Seq::<char>::empty() =~= Seq::<char>::empty() + (seq![',']
            + jstr(t)));
    } else {
        lemma_encode_more_tests_snoc(ts.skip(1), t);
        assert(ts.push(t)[0] == ts[0]);
        assert(ts.push(t).skip(1) =~~= ts.skip(1).push(t));
        assert(seq![','] + jstr(ts[0]) + (spec_encode_more_tests(ts.skip(1)) + (seq![','] + jstr(
            t,
        ))) =~= (seq![','] + jstr(ts[0]) + spec_encode_more_tests(ts.skip(1))) + (seq![','] + jstr(
            t,
        )));
    }
}

} // verus!
