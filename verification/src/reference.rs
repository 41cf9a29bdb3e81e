//! The loose reference entity: a validated name together with a decoded
//! target, either a direct object id or a symbolic indirection to
//! another reference name.
//!
//! A loose reference file holds either forty hexadecimal digits or a
//! single line `ref: <name>`; trailing whitespace is ignored.

use vstd::prelude::*;

use crate::bytes::is_prefix;
use crate::hash::{all_hex, hex_decoded, ObjectId, ID_HEX_LEN};
use crate::validate::valid_name;

verus! {

/// What a reference points at.
#[derive(Debug)]
pub enum Target {
    /// A direct object id.
    Peeled(ObjectId),
    /// The name of another reference.
    Symbolic(Vec<u8>),
}

/// The mathematical content of a target.
pub enum TargetView {
    /// A direct object id, as its bytes.
    Id(Seq<u8>),
    /// A symbolic indirection, as the referred-to name.
    Name(Seq<u8>),
}

impl Target {
    /// The content of this target.
    pub open spec fn view(&self) -> TargetView {
        match self {
            Target::Peeled(id) => TargetView::Id(id@),
            Target::Symbolic(n) => TargetView::Name(n@),
        }
    }

    /// A direct target carries a well-formed id.
    pub open spec fn wf(&self) -> bool {
        match self {
            Target::Peeled(id) => id.wf(),
            Target::Symbolic(_) => true,
        }
    }

    /// Copies the target.
    pub fn duplicate(&self) -> (r: Target)
        ensures
            r@ == self@,
            r.wf() == self.wf(),
    {
        match self {
            Target::Peeled(id) => Target::Peeled(id.duplicate()),
            Target::Symbolic(n) => Target::Symbolic(crate::bytes::bytes_clone(n)),
        }
    }
}

/// Why a loose reference file failed to decode.
#[derive(Debug, Copy, Clone, Eq, PartialEq, Structural)]
pub enum DecodeError {
    /// The content names a symbolic target whose name is not legal.
    BadSymbolicName,
    /// The content is neither a symbolic line nor forty hexadecimal digits.
    BadId,
}

/// A reference read from its own file, with a slot memoizing the object
/// id it was last peeled to.
#[derive(Debug)]
pub struct LooseReference {
    /// The validated name, relative to the store's base.
    pub name: Vec<u8>,
    /// The decoded target.
    pub target: Target,
    /// The memoized result of peeling, absent until a peel succeeds.
    pub peeled: Option<ObjectId>,
}

impl LooseReference {
    /// Well-formedness: any ids carried are the right size.
    pub open spec fn wf(&self) -> bool {
        &&& self.target.wf()
        &&& match self.peeled {
            Some(id) => id.wf(),
            None => true,
        }
    }
}

/// Whether `b` is trailing whitespace to be ignored in a reference file.
pub open spec fn is_ws(b: u8) -> bool {
    b == 10 || b == 13 || b == 32 || b == 9
}

/// `s` without its trailing whitespace.
pub open spec fn spec_trim(s: Seq<u8>) -> Seq<u8>
    decreases s.len(),
{
    if s.len() > 0 && is_ws(s.last()) {
        spec_trim(s.drop_last())
    } else {
        s
    }
}

/// The bytes `ref: `, the marker of a symbolic reference file.
pub open spec fn ref_marker() -> Seq<u8> {
    seq![114u8, 101u8, 102u8, 58u8, 32u8]
}

/// What a loose reference file's bytes denote: a direct id, a symbolic
/// name, or a decode error.
pub open spec fn spec_parse_target(s: Seq<u8>) -> Result<TargetView, DecodeError> {
    let t = spec_trim(s);
    if is_prefix(ref_marker(), t) {
        let n = t.skip(5);
        if valid_name(n) {
            Ok(TargetView::Name(n))
        } else {
            Err(DecodeError::BadSymbolicName)
        }
    } else if t.len() == ID_HEX_LEN && all_hex(t) {
        Ok(TargetView::Id(hex_decoded(t)))
    } else {
        Err(DecodeError::BadId)
    }
}

/// The length of `s` once trailing whitespace is dropped.
fn trim_len(s: &Vec<u8>) -> (n: usize)
    ensures
        n <= s@.len(),
        spec_trim(s@) == s@.take(n as int),
{
    let mut n: usize = s.len();
    assert(s@.take(n as int) =~= s@);
    while n > 0
        invariant
            n <= s.len(),
            spec_trim(s@) == spec_trim(s@.take(n as int)),
        decreases n,
    {
        let b = s[n - 1];
        if !(b == 10 || b == 13 || b == 32 || b == 9) {
            assert(s@.take(n as int).last() == b);
            assert(spec_trim(s@.take(n as int)) == s@.take(n as int));
            return n;
        }
        assert(s@.take(n as int).drop_last() =~= s@.take(n - 1 as int));
        assert(s@.take(n as int).last() == b);
        n = n - 1;
    }
    assert(s@.take(0) =~= Seq::<u8>::empty());
    0
}

/// Copies `s` without its trailing whitespace.
fn trim_trailing(s: &Vec<u8>) -> (r: Vec<u8>)
    ensures
        r@ == spec_trim(s@),
{
    let n = trim_len(s);
    let mut r: Vec<u8> = Vec::new();
    let mut i: usize = 0;
    while i < n
        invariant
            i <= n <= s@.len(),
            r@ =~= s@.take(n as int).subrange(0, i as int),
        decreases n - i,
    {
        r.push(s[i]);
        i = i + 1;
    }
    assert(r@ =~= s@.take(n as int));
    r
}

/// Decodes the bytes of a loose reference file read under `name`.
///
/// Succeeds exactly when the trimmed content is a legal symbolic line or
/// forty hexadecimal digits; the result carries `name`, the decoded
/// target, and an empty peel slot.
pub fn decode(bytes: &Vec<u8>, name: Vec<u8>) -> (r: Result<LooseReference, DecodeError>)
    ensures
        match r {
            Ok(lr) => {
                &&& spec_parse_target(bytes@) == Ok::<TargetView, DecodeError>(lr.target@)
                &&& lr.name@ == name@
                &&& lr.peeled is None
                &&& lr.wf()
            },
            Err(e) => spec_parse_target(bytes@) == Err::<TargetView, DecodeError>(e),
        },
{
    let t = trim_trailing(bytes);
    // Symbolic line?
    if t.len() >= 5 && t[0] == 114 && t[1] == 101 && t[2] == 102 && t[3] == 58 && t[4] == 32 {
        assert(is_prefix(ref_marker(), t@));
        let mut n: Vec<u8> = Vec::new();
        let mut i: usize = 5;
        while i < t.len()
            invariant
                5 <= i <= t.len(),
                n@ =~= t@.subrange(5, i as int),
            decreases t.len() - i,
        {
            n.push(t[i]);
            i = i + 1;
        }
        assert(n@ =~= t@.skip(5));
        if crate::validate::name_partial_valid(&n) {
            Ok(LooseReference { name, target: Target::Symbolic(n), peeled: None })
        } else {
            Err(DecodeError::BadSymbolicName)
        }
    } else {
        assert(!is_prefix(ref_marker(), t@)) by {
            if is_prefix(ref_marker(), t@) {
                assert(t@.len() >= 5);
                assert(t@[0] == 114 && t@[1] == 101 && t@[2] == 102 && t@[3] == 58 && t@[4] == 32);
            }
        }
        match ObjectId::from_hex(&t) {
            Some(id) => Ok(LooseReference { name, target: Target::Peeled(id), peeled: None }),
            None => Err(DecodeError::BadId),
        }
    }
}

} // verus!
