use vstd::prelude::*;

verus! {

pub const SPACE: u8 = 32;
pub const BANG: u8 = 33;
pub const DQUOTE: u8 = 34;
pub const SQUOTE: u8 = 39;
pub const STAR: u8 = 42;
pub const DASH: u8 = 45;
pub const DOT: u8 = 46;
pub const SLASH: u8 = 47;
pub const LT: u8 = 60;
pub const EQ: u8 = 61;
pub const GT: u8 = 62;
pub const HASH: u8 = 35;
pub const DOLLAR: u8 = 36;
pub const COMMA: u8 = 44;
pub const LBRACKET: u8 = 91;
pub const RBRACKET: u8 = 93;
pub const CARET: u8 = 94;
pub const TILDE: u8 = 126;

/// Bytes that may appear in tag names, attribute names, ids and classes.
pub open spec fn spec_is_ident(c: u8) -> bool {
    (48 <= c && c <= 57) || (65 <= c && c <= 90) || (97 <= c && c <= 122) || c == 45 || c == 95
        || c == 58 || c == 43 || c == 47
}

/// ASCII whitespace: space, tab, line feed, form feed, carriage return.
pub open spec fn spec_is_space(c: u8) -> bool {
    c == 32 || c == 9 || c == 10 || c == 12 || c == 13
}

/// The byte with ASCII upper-case letters mapped to lower case.
pub open spec fn spec_lower(c: u8) -> u8 {
    if 65 <= c && c <= 90 {
        (c + 32) as u8
    } else {
        c
    }
}

/// Two byte strings that are equal once ASCII letters are lower-cased.
pub open spec fn eq_ignore_case(a: Seq<u8>, b: Seq<u8>) -> bool {
    a.len() == b.len() && forall|i: int| 0 <= i < a.len() ==> spec_lower(#[trigger] a[i]) == spec_lower(b[i])
}

/// Returns whether `c` is an identifier byte: an ASCII digit or letter, or one of `- _ : + /`.
pub fn is_ident(c: u8) -> (r: bool)
    ensures
        r == spec_is_ident(c),
{
    (48 <= c && c <= 57) || (65 <= c && c <= 90) || (97 <= c && c <= 122) || c == 45 || c == 95
        || c == 58 || c == 43 || c == 47
}

/// Returns whether `c` is ASCII whitespace.
pub fn is_space(c: u8) -> (r: bool)
    ensures
        r == spec_is_space(c),
{
    c == 32 || c == 9 || c == 10 || c == 12 || c == 13
}

/// Maps an ASCII upper-case letter to lower case and keeps any other byte.
pub fn to_lower(c: u8) -> (r: u8)
    ensures
        r == spec_lower(c),
{
    if 65 <= c && c <= 90 {
        c + 32
    } else {
        c
    }
}

/// Compares two byte strings, ignoring ASCII case.
pub fn bytes_eq_ignore_case(a: &[u8], b: &[u8]) -> (r: bool)
    ensures
        r == eq_ignore_case(a@, b@),
{
    if a.len() != b.len() {
        return false;
    }
    let mut i: usize = 0;
    while i < a.len()
        invariant
            a@.len() == b@.len(),
            i <= a@.len(),
            forall|k: int| 0 <= k < i ==> spec_lower(#[trigger] a@[k]) == spec_lower(b@[k]),
        decreases a@.len() - i,
    {
        if to_lower(a[i]) != to_lower(b[i]) {
            return false;
        }
        i += 1;
    }
    true
}

/// Compares two byte strings byte by byte.
pub fn bytes_eq(a: &[u8], b: &[u8]) -> (r: bool)
    ensures
        r == (a@ == b@),
{
    if a.len() != b.len() {
        return false;
    }
    let mut i: usize = 0;
    while i < a.len()
        invariant
            a@.len() == b@.len(),
            i <= a@.len(),
            forall|k: int| 0 <= k < i ==> a@[k] == b@[k],
        decreases a@.len() - i,
    {
        if a[i] != b[i] {
            return false;
        }
        i += 1;
    }
    assert(a@ =~= b@);
    true
}

} // verus!
