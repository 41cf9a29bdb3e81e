//! The name validator: decides whether a candidate byte string is a
//! syntactically legal reference name, and whether a caller-supplied
//! iteration prefix is acceptable.
//!
//! The grammar: names are relative, slash-separated paths with no empty
//! component, no `.` or `..` component, and no control characters.

use vstd::prelude::*;

use crate::bytes::{DOT, SLASH};

verus! {

/// A control byte has no place in a reference name.
pub open spec fn is_control(b: u8) -> bool {
    b < 32 || b == 127
}

/// A path component starts at index `i` of `s`.
pub open spec fn comp_start(s: Seq<u8>, i: int) -> bool {
    i == 0 || s[i - 1] == SLASH
}

/// A path component ends at index `i` of `s`.
pub open spec fn comp_end(s: Seq<u8>, i: int) -> bool {
    i == s.len() - 1 || s[i + 1] == SLASH
}

/// The component starting at index `i` of `s` is `.` or `..`.
pub open spec fn dot_comp_at(s: Seq<u8>, i: int) -> bool {
    &&& s[i] == DOT
    &&& comp_start(s, i)
    &&& (comp_end(s, i) || (i + 1 < s.len() && s[i + 1] == DOT && comp_end(s, i + 1)))
}

/// A syntactically legal reference name: non-empty, relative, with no
/// empty component, no `.` or `..` component, and no control character.
pub open spec fn valid_name(s: Seq<u8>) -> bool {
    &&& s.len() > 0
    &&& s[0] != SLASH
    &&& s[s.len() - 1] != SLASH
    &&& forall|i: int| 0 <= i < s.len() ==> !is_control(#[trigger] s[i])
    &&& forall|i: int| 0 <= i < s.len() - 1 ==> !(#[trigger] s[i] == SLASH && s[i + 1] == SLASH)
    &&& forall|i: int| 0 <= i < s.len() ==> !#[trigger] dot_comp_at(s, i)
}

/// An acceptable iteration prefix: relative (not starting with the
/// separator) and free of `.` and `..` components. The empty prefix is
/// acceptable and selects everything.
pub open spec fn valid_prefix(s: Seq<u8>) -> bool {
    &&& (s.len() == 0 || s[0] != SLASH)
    &&& forall|i: int| 0 <= i < s.len() ==> !#[trigger] dot_comp_at(s, i)
}

/// Decides `valid_name` on the view of `s`.
pub fn name_partial_valid(s: &Vec<u8>) -> (r: bool)
    ensures
        r == valid_name(s@),
{
    if s.len() == 0 {
        return false;
    }
    if s[0] == SLASH || s[s.len() - 1] == SLASH {
        return false;
    }
    let mut i: usize = 0;
    while i < s.len()
        invariant
            i <= s.len(),
            s.len() > 0,
            s@[0] != SLASH,
            s@[s@.len() - 1] != SLASH,
            forall|j: int| 0 <= j < i ==> !is_control(#[trigger] s@[j]),
            forall|j: int| 0 <= j < i && j < s@.len() - 1
                ==> !(#[trigger] s@[j] == SLASH && s@[j + 1] == SLASH),
            forall|j: int| 0 <= j < i ==> !#[trigger] dot_comp_at(s@, j),
        decreases s.len() - i,
    {
        let b = s[i];
        if b < 32 || b == 127 {
            return false;
        }
        if b == SLASH && i + 1 < s.len() && s[i + 1] == SLASH {
            return false;
        }
        if b == DOT && (i == 0 || s[i - 1] == SLASH) {
            // The component starting here must not be `.` or `..`.
            if i + 1 == s.len() || s[i + 1] == SLASH {
                assert(dot_comp_at(s@, i as int));
                return false;
            }
            if s[i + 1] == DOT && (i + 2 == s.len() || s[i + 2] == SLASH) {
                assert(dot_comp_at(s@, i as int));
                return false;
            }
        }
        assert(!dot_comp_at(s@, i as int));
        i = i + 1;
    }
    true
}

/// Decides `valid_prefix` on the view of `s`.
pub fn prefix_valid(s: &Vec<u8>) -> (r: bool)
    ensures
        r == valid_prefix(s@),
{
    if s.len() == 0 {
        return true;
    }
    if s[0] == SLASH {
        return false;
    }
    let mut i: usize = 0;
    while i < s.len()
        invariant
            i <= s.len(),
            s.len() > 0,
            s@[0] != SLASH,
            forall|j: int| 0 <= j < i ==> !#[trigger] dot_comp_at(s@, j),
        decreases s.len() - i,
    {
        let b = s[i];
        if b == DOT && (i == 0 || s[i - 1] == SLASH) {
            if i + 1 == s.len() || s[i + 1] == SLASH {
                assert(dot_comp_at(s@, i as int));
                return false;
            }
            if s[i + 1] == DOT && (i + 2 == s.len() || s[i + 2] == SLASH) {
                assert(dot_comp_at(s@, i as int));
                return false;
            }
        }
        assert(!dot_comp_at(s@, i as int));
        i = i + 1;
    }
    true
}

/// `p` is a component-wise prefix of the name `n`: either the whole of
/// `n`, or a leading run of components of `n`. The empty `p` prefixes
/// every name.
pub open spec fn name_has_prefix(n: Seq<u8>, p: Seq<u8>) -> bool {
    &&& p.len() <= n.len()
    &&& forall|i: int| 0 <= i < p.len() ==> n[i] == #[trigger] p[i]
    &&& (n.len() == p.len() || p.len() == 0 || n[p.len() as int] == SLASH)
}

/// Decides `name_has_prefix`.
pub fn has_name_prefix(n: &Vec<u8>, p: &Vec<u8>) -> (r: bool)
    ensures
        r == name_has_prefix(n@, p@),
{
    if p.len() > n.len() {
        return false;
    }
    let mut i: usize = 0;
    while i < p.len()
        invariant
            i <= p.len(),
            p.len() <= n.len(),
            forall|j: int| 0 <= j < i ==> n@[j] == #[trigger] p@[j],
        decreases p.len() - i,
    {
        if n[i] != p[i] {
            return false;
        }
        i = i + 1;
    }
    if n.len() == p.len() || p.len() == 0 {
        return true;
    }
    n[p.len()] == SLASH
}

} // verus!
