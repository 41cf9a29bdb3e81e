//! Byte-sequence utilities shared by the reference store: lexicographic
//! ordering of paths, prefix tests, and slash-separated path arithmetic.
//!
//! Reference names and paths are byte strings separated by `/`; no text
//! encoding is assumed beyond the ASCII meaning of the separator.

use vstd::prelude::*;

verus! {

/// The path separator byte, `/`.
pub const SLASH: u8 = 47;

/// The `.` byte.
pub const DOT: u8 = 46;

/// Lexicographic order on byte sequences: `a` comes no later than `b`.
pub open spec fn lex_le(a: Seq<u8>, b: Seq<u8>) -> bool
    decreases a.len(),
{
    if a.len() == 0 {
        true
    } else if b.len() == 0 {
        false
    } else if a[0] < b[0] {
        true
    } else if a[0] > b[0] {
        false
    } else {
        lex_le(a.drop_first(), b.drop_first())
    }
}

/// The order is total: any two byte sequences are comparable.
pub proof fn lemma_lex_le_total(a: Seq<u8>, b: Seq<u8>)
    ensures
        lex_le(a, b) || lex_le(b, a),
    decreases a.len(),
{
    if a.len() > 0 && b.len() > 0 && a[0] == b[0] {
        lemma_lex_le_total(a.drop_first(), b.drop_first());
    }
}

/// The order is antisymmetric: mutual `lex_le` means equality.
pub proof fn lemma_lex_le_antisymmetric(a: Seq<u8>, b: Seq<u8>)
    requires
        lex_le(a, b),
        lex_le(b, a),
    ensures
        a == b,
    decreases a.len(),
{
    if a.len() > 0 && b.len() > 0 && a[0] == b[0] {
        lemma_lex_le_antisymmetric(a.drop_first(), b.drop_first());
        assert(a =~= seq![a[0]] + a.drop_first());
        assert(b =~= seq![b[0]] + b.drop_first());
    } else {
        assert(a =~= b);
    }
}

/// The order is transitive.
pub proof fn lemma_lex_le_transitive(a: Seq<u8>, b: Seq<u8>, c: Seq<u8>)
    requires
        lex_le(a, b),
        lex_le(b, c),
    ensures
        lex_le(a, c),
    decreases a.len(),
{
    if a.len() > 0 && b.len() > 0 && c.len() > 0 && a[0] == b[0] && b[0] == c[0] {
        lemma_lex_le_transitive(a.drop_first(), b.drop_first(), c.drop_first());
    }
}

/// Sequences that agree on their first `k` elements compare exactly as
/// their tails after `k` do.
pub proof fn lemma_lex_le_skip(a: Seq<u8>, b: Seq<u8>, k: int)
    requires
        0 <= k <= a.len(),
        k <= b.len(),
        forall|i: int| 0 <= i < k ==> a[i] == b[i],
    ensures
        lex_le(a, b) == lex_le(a.skip(k), b.skip(k)),
    decreases k,
{
    if k > 0 {
        assert(a.len() > 0 && b.len() > 0 && a[0] == b[0]);
        assert(a.drop_first().skip(k - 1) =~= a.skip(k));
        assert(b.drop_first().skip(k - 1) =~= b.skip(k));
        assert(forall|i: int| 0 <= i < k - 1 ==> a.drop_first()[i] == b.drop_first()[i]);
        lemma_lex_le_skip(a.drop_first(), b.drop_first(), k - 1);
    } else {
        assert(a.skip(0) =~= a);
        assert(b.skip(0) =~= b);
    }
}

/// Executable comparison deciding `lex_le` on the views of two vectors.
pub fn lex_le_bytes(a: &Vec<u8>, b: &Vec<u8>) -> (r: bool)
    ensures
        r == lex_le(a@, b@),
{
    let mut i: usize = 0;
    loop
        invariant
            i <= a.len(),
            i <= b.len(),
            forall|j: int| 0 <= j < i ==> a@[j] == b@[j],
        decreases a.len() - i,
    {
        proof {
            lemma_lex_le_skip(a@, b@, i as int);
        }
        if i == a.len() {
            assert(a@.skip(i as int) =~= Seq::<u8>::empty());
            return true;
        }
        if i == b.len() {
            assert(b@.skip(i as int) =~= Seq::<u8>::empty());
            return false;
        }
        let x = a[i];
        let y = b[i];
        if x != y {
            assert(a@.skip(i as int)[0] == x && b@.skip(i as int)[0] == y);
            return x < y;
        }
        i = i + 1;
    }
}

/// `p` is a (plain, not component-wise) prefix of `s`.
pub open spec fn is_prefix(p: Seq<u8>, s: Seq<u8>) -> bool {
    p.len() <= s.len() && forall|i: int| 0 <= i < p.len() ==> s[i] == p[i]
}

/// `p` lies strictly under directory `base`: `base` is a proper prefix
/// followed by a separator.
pub open spec fn is_under(base: Seq<u8>, p: Seq<u8>) -> bool {
    p.len() > base.len() + 1 && is_prefix(base, p) && p[base.len() as int] == SLASH
}

/// The remainder of `p` after directory `base` and its separator.
pub open spec fn rel_to(base: Seq<u8>, p: Seq<u8>) -> Seq<u8> {
    p.skip(base.len() + 1 as int)
}

/// Executable test for `is_under`.
pub fn under_dir(base: &Vec<u8>, p: &Vec<u8>) -> (r: bool)
    ensures
        r == is_under(base@, p@),
{
    if p.len() < 2 || base.len() > p.len() - 2 {
        return false;
    }
    if p[base.len()] != SLASH {
        return false;
    }
    let mut i: usize = 0;
    while i < base.len()
        invariant
            i <= base.len(),
            base.len() + 1 < p.len(),
            forall|j: int| 0 <= j < i ==> p@[j] == base@[j],
        decreases base.len() - i,
    {
        if p[i] != base[i] {
            return false;
        }
        i = i + 1;
    }
    true
}

/// Copies the remainder of `p` after `base` and its separator.
pub fn rel_bytes(base: &Vec<u8>, p: &Vec<u8>) -> (r: Vec<u8>)
    requires
        is_under(base@, p@),
    ensures
        r@ == rel_to(base@, p@),
{
    let mut r: Vec<u8> = Vec::new();
    let plen = p.len();
    assert(base@.len() + 1 < plen);
    let mut i: usize = base.len() + 1;
    while i < p.len()
        invariant
            base.len() + 1 <= i <= p.len(),
            r@ =~= p@.subrange(base.len() + 1, i as int),
        decreases p.len() - i,
    {
        r.push(p[i]);
        i = i + 1;
    }
    assert(r@ =~= p@.skip(base.len() + 1));
    r
}

/// A directory and a relative path joined with a separator; an empty
/// relative path names the directory itself.
pub open spec fn join_spec(base: Seq<u8>, rel: Seq<u8>) -> Seq<u8> {
    if rel.len() == 0 {
        base
    } else {
        base + seq![SLASH] + rel
    }
}

/// Joins a directory and a relative path, per `join_spec`.
pub fn join_path(base: &Vec<u8>, rel: &Vec<u8>) -> (r: Vec<u8>)
    ensures
        r@ == join_spec(base@, rel@),
{
    let mut r: Vec<u8> = Vec::new();
    let mut i: usize = 0;
    while i < base.len()
        invariant
            i <= base.len(),
            r@ =~= base@.subrange(0, i as int),
        decreases base.len() - i,
    {
        r.push(base[i]);
        i = i + 1;
    }
    assert(r@ =~= base@);
    if rel.len() == 0 {
        return r;
    }
    r.push(SLASH);
    let mut j: usize = 0;
    while j < rel.len()
        invariant
            j <= rel.len(),
            r@ =~= base@ + seq![SLASH] + rel@.subrange(0, j as int),
        decreases rel.len() - j,
    {
        r.push(rel[j]);
        j = j + 1;
    }
    assert(r@ =~= base@ + seq![SLASH] + rel@);
    r
}

/// Copies the bytes of `s` between positions `a` and `b`.
pub fn copy_range(s: &Vec<u8>, a: usize, b: usize) -> (r: Vec<u8>)
    requires
        a <= b <= s@.len(),
    ensures
        r@ == s@.subrange(a as int, b as int),
{
    let mut r: Vec<u8> = Vec::new();
    let mut i: usize = a;
    while i < b
        invariant
            a <= i <= b <= s@.len(),
            r@ =~= s@.subrange(a as int, i as int),
        decreases b - i,
    {
        r.push(s[i]);
        i = i + 1;
    }
    assert(r@ =~= s@.subrange(a as int, b as int));
    r
}

/// Structural equality of two byte vectors.
pub fn bytes_eq(a: &Vec<u8>, b: &Vec<u8>) -> (r: bool)
    ensures
        r == (a@ == b@),
{
    if a.len() != b.len() {
        return false;
    }
    let mut i: usize = 0;
    while i < a.len()
        invariant
            i <= a.len(),
            a.len() == b.len(),
            forall|j: int| 0 <= j < i ==> a@[j] == b@[j],
        decreases a.len() - i,
    {
        if a[i] != b[i] {
            return false;
        }
        i = i + 1;
    }
    assert(a@ =~= b@);
    true
}

/// Copies a vector of bytes.
pub fn bytes_clone(a: &Vec<u8>) -> (r: Vec<u8>)
    ensures
        r@ == a@,
{
    let mut r: Vec<u8> = Vec::new();
    let mut i: usize = 0;
    while i < a.len()
        invariant
            i <= a.len(),
            r@ =~= a@.subrange(0, i as int),
        decreases a.len() - i,
    {
        r.push(a[i]);
        i = i + 1;
    }
    assert(r@ =~= a@);
    r
}

} // verus!
