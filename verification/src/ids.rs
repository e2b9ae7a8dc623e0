use vstd::prelude::*;

verus! {

/// A commit line of a plan names a commit by the 40-character lowercase
/// hexadecimal form of its content hash. `CommitId` carries such a name,
/// with its well-formedness as a type invariant established by the
/// constructors.
pub open spec fn spec_is_hex_char(c: char) -> bool {
    ('0' <= c && c <= '9') || ('a' <= c && c <= 'f')
}

/// A sequence of characters is a well-formed commit identity when it is
/// exactly 40 lowercase hexadecimal digits.
pub open spec fn id_wf(s: Seq<char>) -> bool {
    &&& s.len() == 40
    &&& forall|i: int| 0 <= i < s.len() ==> spec_is_hex_char(#[trigger] s[i])
}

pub fn is_hex_char(c: char) -> (r: bool)
    ensures
        r == spec_is_hex_char(c),
{
    ('0' <= c && c <= '9') || ('a' <= c && c <= 'f')
}

/// Uppercase hexadecimal digits are accepted on input and normalized; this
/// maps one character to its lowercase hexadecimal form when it has one.
pub open spec fn spec_hex_lower(c: char) -> char {
    if c == 'A' {
        'a'
    } else if c == 'B' {
        'b'
    } else if c == 'C' {
        'c'
    } else if c == 'D' {
        'd'
    } else if c == 'E' {
        'e'
    } else if c == 'F' {
        'f'
    } else {
        c
    }
}

pub fn hex_lower(c: char) -> (r: char)
    ensures
        r == spec_hex_lower(c),
{
    if c == 'A' {
        'a'
    } else if c == 'B' {
        'b'
    } else if c == 'C' {
        'c'
    } else if c == 'D' {
        'd'
    } else if c == 'E' {
        'e'
    } else if c == 'F' {
        'f'
    } else {
        c
    }
}

#[derive(Debug, PartialEq, Eq, Hash)]
pub struct CommitId {
    hex: String,
}

impl View for CommitId {
    type V = Seq<char>;

    closed spec fn view(&self) -> Seq<char> {
        self.hex@
    }
}

impl Clone for CommitId {
    fn clone(&self) -> (r: Self)
        ensures
            r@ == self@,
    {
        CommitId { hex: self.hex.clone() }
    }
}

impl CommitId {
    pub open spec fn wf(&self) -> bool {
        id_wf(self@)
    }

    /// Build an identity from 40 characters already known to be lowercase
    /// hexadecimal.
    pub fn from_hex_string(hex: String) -> (r: CommitId)
        requires
            id_wf(hex@),
        ensures
            r@ == hex@,
            r.wf(),
    {
        CommitId { hex }
    }

    pub fn as_str(&self) -> (r: &str)
        ensures
            r@ == self@,
    {
        self.hex.as_str()
    }

    pub fn eq_id(&self, other: &CommitId) -> (r: bool)
        ensures
            r == (self@ == other@),
    {
        self.hex == other.hex
    }
}

} // verus!
