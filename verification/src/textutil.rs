use vstd::prelude::*;

verus! {

use vstd::string::StrSliceExecFns;

// Plans and persisted records are line-oriented text. This module gives the
// library one notion of "the lines of a text": `spec_lines_of` splits at
// newline characters, `spec_join_lines` is its inverse on newline-free
// lines, and the executable splitters are pinned to these functions.
/// Index of the first newline in `s`, or `s.len()` when there is none.
pub open spec fn first_nl(s: Seq<char>) -> int
    decreases s.len(),
{
    if s.len() == 0 {
        0
    } else if s[0] == '\n' {
        0
    } else {
        1 + first_nl(s.skip(1))
    }
}

pub proof fn lemma_first_nl_bounds(s: Seq<char>)
    ensures
        0 <= first_nl(s) <= s.len(),
        forall|k: int| 0 <= k < first_nl(s) ==> s[k] != '\n',
        first_nl(s) < s.len() ==> s[first_nl(s)] == '\n',
    decreases s.len(),
{
    if s.len() == 0 {
    } else if s[0] == '\n' {
    } else {
        lemma_first_nl_bounds(s.skip(1));
        assert forall|k: int| 0 <= k < first_nl(s) implies s[k] != '\n' by {
            if k > 0 {
                assert(s.skip(1)[k - 1] != '\n');
            }
        }
        if first_nl(s) < s.len() {
            assert(s[first_nl(s)] == s.skip(1)[first_nl(s) - 1]);
        }
    }
}

/// If every character before `m` is not a newline, and `m` is either the
/// end or a newline, then `m` is the first newline position.
pub proof fn lemma_first_nl_is(s: Seq<char>, m: int)
    requires
        0 <= m <= s.len(),
        forall|k: int| 0 <= k < m ==> s[k] != '\n',
        m < s.len() ==> s[m] == '\n',
    ensures
        first_nl(s) == m,
    decreases s.len(),
{
    if s.len() == 0 {
    } else if m == 0 {
        lemma_first_nl_bounds(s);
    } else {
        assert(s[0] != '\n');
        assert forall|k: int| 0 <= k < m - 1 implies s.skip(1)[k] != '\n' by {
            assert(s.skip(1)[k] == s[k + 1]);
        }
        assert(m - 1 < s.skip(1).len() ==> s.skip(1)[m - 1] == '\n');
        lemma_first_nl_is(s.skip(1), m - 1);
    }
}

/// The lines of a text: maximal newline-free runs. A trailing newline does
/// not produce an extra empty line; a text without a final newline still
/// yields its last line.
pub open spec fn spec_lines_of(s: Seq<char>) -> Seq<Seq<char>>
    decreases s.len(),
{
    if s.len() == 0 {
        Seq::empty()
    } else {
        let i = first_nl(s);
        if 0 <= i && i < s.len() {
            seq![s.take(i)] + spec_lines_of(s.skip(i + 1))
        } else {
            seq![s]
        }
    }
}

pub open spec fn no_nl(s: Seq<char>) -> bool {
    forall|i: int| 0 <= i < s.len() ==> s[i] != '\n'
}

/// Join a sequence of lines, terminating every line with a newline.
pub open spec fn spec_join_lines(ls: Seq<Seq<char>>) -> Seq<char>
    decreases ls.len(),
{
    if ls.len() == 0 {
        Seq::empty()
    } else {
        ls[0] + seq!['\n'] + spec_join_lines(ls.skip(1))
    }
}

pub proof fn lemma_join_lines_concat(a: Seq<Seq<char>>, b: Seq<Seq<char>>)
    ensures
        spec_join_lines(a + b) == spec_join_lines(a) + spec_join_lines(b),
    decreases a.len(),
{
    if a.len() == 0 {
        assert(a + b == b);
        assert(spec_join_lines(a) == Seq::<char>::empty());
        assert(spec_join_lines(a) + spec_join_lines(b) == spec_join_lines(b));
    } else {
        assert((a + b).skip(1) == a.skip(1) + b);
        lemma_join_lines_concat(a.skip(1), b);
        assert(spec_join_lines(a + b) == (a + b)[0] + seq!['\n'] + spec_join_lines(a.skip(1) + b));
        assert((a + b)[0] == a[0]);
        assert(spec_join_lines(a + b) == spec_join_lines(a) + spec_join_lines(b)) by {
            assert(a[0] + seq!['\n'] + (spec_join_lines(a.skip(1)) + spec_join_lines(b)) == (a[0]
                + seq!['\n'] + spec_join_lines(a.skip(1))) + spec_join_lines(b));
        }
    }
}

/// Splitting a newline-terminated line off the front.
pub proof fn lemma_lines_of_cons(line: Seq<char>, rest: Seq<char>)
    requires
        no_nl(line),
    ensures
        spec_lines_of(line + seq!['\n'] + rest) == seq![line] + spec_lines_of(rest),
{
    let s = line + seq!['\n'] + rest;
    assert forall|k: int| 0 <= k < line.len() implies s[k] != '\n' by {
        assert(s[k] == line[k]);
    }
    assert(s[line.len() as int] == '\n');
    lemma_first_nl_is(s, line.len() as int);
    assert(s.len() > 0);
    assert(first_nl(s) == line.len() < s.len());
    assert(s.take(line.len() as int) == line);
    assert(s.skip(line.len() as int + 1) == rest);
}

/// Splitting undoes joining, for newline-free lines.
pub proof fn lemma_lines_of_join(ls: Seq<Seq<char>>)
    requires
        forall|i: int| 0 <= i < ls.len() ==> no_nl(#[trigger] ls[i]),
    ensures
        spec_lines_of(spec_join_lines(ls)) == ls,
    decreases ls.len(),
{
    if ls.len() == 0 {
    } else {
        lemma_lines_of_cons(ls[0], spec_join_lines(ls.skip(1)));
        lemma_lines_of_join(ls.skip(1));
        assert(seq![ls[0]] + ls.skip(1) == ls);
    }
}

/// A blank line holds only spaces and tabs (or nothing).
pub open spec fn spec_is_blank(s: Seq<char>) -> bool {
    forall|i: int| 0 <= i < s.len() ==> (s[i] == ' ' || s[i] == '\t')
}

pub fn is_blank(v: &Vec<char>) -> (r: bool)
    ensures
        r == spec_is_blank(v@),
{
    let mut i: usize = 0;
    while i < v.len()
        invariant
            i <= v.len(),
            forall|k: int| 0 <= k < i ==> (v@[k] == ' ' || v@[k] == '\t'),
        decreases v.len() - i,
    {
        let c = v[i];
        if c != ' ' && c != '\t' {
            return false;
        }
        i += 1;
    }
    true
}

/// Relies on `String::push`: appends exactly the given character.
#[verifier::external_body]
pub fn push_char(s: &mut String, c: char)
    ensures
        final(s)@ == old(s)@.push(c),
{
    s.push(c);
}

/// The characters of a string, as a vector.
pub fn chars_of(s: &str) -> (r: Vec<char>)
    ensures
        r@ == s@,
{
    let n = s.unicode_len();
    let mut r: Vec<char> = Vec::new();
    let mut i: usize = 0;
    while i < n
        invariant
            i <= n,
            n == s@.len(),
            r@ == s@.take(i as int),
        decreases n - i,
    {
        let c = s.get_char(i);
        r.push(c);
        proof {
            assert(r@ =~= s@.take(i + 1));
        }
        i += 1;
    }
    proof {
        assert(r@ =~= s@);
    }
    r
}

/// The substring `v[from..to]`, built as an owned string.
pub fn string_from_range(v: &Vec<char>, from: usize, to: usize) -> (r: String)
    requires
        from <= to <= v@.len(),
    ensures
        r@ == v@.subrange(from as int, to as int),
{
    let mut s = String::new();
    let mut i: usize = from;
    while i < to
        invariant
            from <= i <= to <= v@.len(),
            s@ == v@.subrange(from as int, i as int),
        decreases to - i,
    {
        push_char(&mut s, v[i]);
        proof {
            assert(s@ =~= v@.subrange(from as int, i + 1));
        }
        i += 1;
    }
    s
}

/// The lines of `v`, as vectors of characters.
pub fn split_lines(v: &Vec<char>) -> (r: Vec<Vec<char>>)
    ensures
        r.deep_view() == spec_lines_of(v@),
{
    let mut r: Vec<Vec<char>> = Vec::new();
    let mut pos: usize = 0;
    proof {
        assert(r.deep_view() =~~= Seq::<Seq<char>>::empty());
        assert(v@.skip(0) == v@);
    }
    while pos < v.len()
        invariant
            pos <= v@.len(),
            spec_lines_of(v@) == r.deep_view() + spec_lines_of(v@.skip(pos as int)),
        decreases v.len() - pos,
    {
        let ghost s = v@.skip(pos as int);
        let mut j: usize = pos;
        while j < v.len() && *vstd::slice::slice_index_get(v.as_slice(), j) != '\n'
            invariant
                pos <= j <= v@.len(),
                forall|k: int| pos <= k < j ==> v@[k] != '\n',
            decreases v.len() - j,
        {
            j += 1;
        }
        proof {
            assert forall|k: int| 0 <= k < j - pos implies s[k] != '\n' by {
                assert(s[k] == v@[pos + k]);
            }
            if j < v@.len() {
                assert(s[j - pos] == v@[j as int]);
            }
            lemma_first_nl_is(s, j - pos);
        }
        let mut line: Vec<char> = Vec::new();
        let mut k: usize = pos;
        while k < j
            invariant
                pos <= k <= j <= v@.len(),
                line@ == v@.subrange(pos as int, k as int),
            decreases j - k,
        {
            line.push(v[k]);
            proof {
                assert(line@ =~= v@.subrange(pos as int, k + 1));
            }
            k += 1;
        }
        proof {
            assert(line@ =~= s.take(j - pos));
        }
        let ghost old_r = r.deep_view();
        r.push(line);
        proof {
            assert(r.deep_view() =~~= old_r + seq![line@]);
        }
        if j < v.len() {
            proof {
                assert(s.skip(j - pos + 1) =~= v@.skip(j + 1));
                assert(spec_lines_of(s) == seq![s.take(j - pos)] + spec_lines_of(v@.skip(j + 1)));
                assert(old_r + spec_lines_of(s) =~~= (old_r + seq![line@]) + spec_lines_of(
                    v@.skip(j + 1),
                ));
            }
            pos = j + 1;
        } else {
            proof {
                assert(spec_lines_of(s) == seq![s]);
                assert(s.take(j - pos) =~= s);
                assert(old_r + spec_lines_of(s) =~~= (old_r + seq![line@]) + spec_lines_of(
                    v@.skip(j as int),
                ));
            }
            pos = j;
        }
    }
    proof {
        assert(r.deep_view() + spec_lines_of(v@.skip(pos as int)) =~~= r.deep_view());
    }
    r
}

} // verus!
