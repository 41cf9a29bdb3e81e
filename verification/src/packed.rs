//! The packed-reference table: a read-only buffer parsed from the
//! consolidated file, looked up by full reference name.
//!
//! Each non-comment line is `<hex-object-id> <full-reference-name>`,
//! optionally followed by a `^<hex-object-id>` line giving the fully
//! peeled id of the preceding entry.

use vstd::prelude::*;

use crate::bytes::{bytes_eq, copy_range};
use crate::hash::{all_hex, hex_decoded, ObjectId, ID_HEX_LEN};
use crate::validate::valid_name;

verus! {

/// The mathematical content of one table row: name, target id, and the
/// optional precomputed peeled id.
pub type PackedEntryView = (Seq<u8>, Seq<u8>, Option<Seq<u8>>);

/// One row of the packed table.
#[derive(Debug)]
pub struct PackedEntry {
    /// The full reference name.
    pub name: Vec<u8>,
    /// The target object id.
    pub target: ObjectId,
    /// The fully peeled id, when the file carried a `^` annotation.
    pub peeled: Option<ObjectId>,
}

impl PackedEntry {
    /// The content of this row.
    pub open spec fn view(&self) -> PackedEntryView {
        (
            self.name@,
            self.target@,
            match self.peeled {
                Some(id) => Some(id@),
                None => None,
            },
        )
    }

    /// Any ids carried are the right size.
    pub open spec fn wf(&self) -> bool {
        &&& self.target.wf()
        &&& match self.peeled {
            Some(id) => id.wf(),
            None => true,
        }
    }
}

/// Why the consolidated file failed to parse.
#[derive(Debug, Copy, Clone, Eq, PartialEq, Structural)]
pub enum ParseError {
    /// A `^` line without a legal id, or with no entry to annotate, or
    /// annotating an entry a second time.
    BadPeel,
    /// A line that is neither empty, a comment, a `^` line, nor
    /// `<hex-id> <name>` with a legal id and name.
    BadEntry,
}

/// The index of the first occurrence of `b` in `s`, or `s.len()`.
pub open spec fn find_byte(s: Seq<u8>, b: u8) -> nat
    decreases s.len(),
{
    if s.len() == 0 {
        0
    } else if s[0] == b {
        0
    } else {
        1 + find_byte(s.drop_first(), b)
    }
}

/// `find_byte` returns exactly the first index holding `b`.
pub proof fn lemma_find_byte_is(s: Seq<u8>, b: u8, k: int)
    requires
        0 <= k <= s.len(),
        forall|j: int| 0 <= j < k ==> s[j] != b,
        k < s.len() ==> s[k] == b,
    ensures
        find_byte(s, b) == k,
    decreases s.len(),
{
    if s.len() > 0 && s[0] != b {
        assert(k >= 1);
        assert(forall|j: int| 0 <= j < k - 1 ==> s.drop_first()[j] != b);
        lemma_find_byte_is(s.drop_first(), b, k - 1);
    }
}

/// The lines of `s`, split on the newline byte. A trailing newline
/// contributes a final empty line, which the parser ignores.
pub open spec fn spec_lines(s: Seq<u8>) -> Seq<Seq<u8>>
    decreases s.len(),
{
    let i = find_byte(s, 10);
    if i >= s.len() {
        seq![s]
    } else {
        seq![s.take(i as int)] + spec_lines(s.skip(i + 1 as int))
    }
}

/// Parses the lines `ls` on top of the rows `acc` already read.
pub open spec fn parse_lines(ls: Seq<Seq<u8>>, acc: Seq<PackedEntryView>) -> Result<
    Seq<PackedEntryView>,
    ParseError,
>
    decreases ls.len(),
{
    if ls.len() == 0 {
        Ok(acc)
    } else {
        let l = ls[0];
        if l.len() == 0 || l[0] == 35 {
            parse_lines(ls.drop_first(), acc)
        } else if l[0] == 94 {
            let h = l.skip(1);
            if h.len() == ID_HEX_LEN && all_hex(h) && acc.len() > 0 && acc.last().2 is None {
                parse_lines(
                    ls.drop_first(),
                    acc.update(acc.len() - 1, (acc.last().0, acc.last().1, Some(hex_decoded(h)))),
                )
            } else {
                Err(ParseError::BadPeel)
            }
        } else {
            let i = find_byte(l, 32);
            if i == ID_HEX_LEN && i < l.len() && all_hex(l.take(i as int)) && valid_name(
                l.skip(i + 1 as int),
            ) {
                parse_lines(
                    ls.drop_first(),
                    acc.push((l.skip(i + 1 as int), hex_decoded(l.take(i as int)), None)),
                )
            } else {
                Err(ParseError::BadEntry)
            }
        }
    }
}

/// What the consolidated file's bytes denote.
pub open spec fn spec_parse_packed(s: Seq<u8>) -> Result<Seq<PackedEntryView>, ParseError> {
    parse_lines(spec_lines(s), Seq::empty())
}

/// The first row of `rows` named `name`, if any.
pub open spec fn spec_find(rows: Seq<PackedEntryView>, name: Seq<u8>) -> Option<PackedEntryView>
    decreases rows.len(),
{
    if rows.len() == 0 {
        None
    } else if rows[0].0 == name {
        Some(rows[0])
    } else {
        spec_find(rows.drop_first(), name)
    }
}

/// Skipping rows with other names leaves the first match unchanged.
pub proof fn lemma_spec_find_skip(rows: Seq<PackedEntryView>, name: Seq<u8>, k: int)
    requires
        0 <= k <= rows.len(),
        forall|i: int| 0 <= i < k ==> rows[i].0 != name,
    ensures
        spec_find(rows, name) == spec_find(rows.skip(k), name),
    decreases k,
{
    if k > 0 {
        assert(rows.drop_first().skip(k - 1) =~= rows.skip(k));
        assert(forall|i: int| 0 <= i < k - 1 ==> rows.drop_first()[i].0 != name);
        lemma_spec_find_skip(rows.drop_first(), name, k - 1);
    } else {
        assert(rows.skip(0) =~= rows);
    }
}

/// A found row carries the name it was looked up by.
pub proof fn lemma_spec_find_found(rows: Seq<PackedEntryView>, name: Seq<u8>)
    ensures
        match spec_find(rows, name) {
            Some(e) => e.0 == name,
            None => true,
        },
    decreases rows.len(),
{
    if rows.len() > 0 && rows[0].0 != name {
        lemma_spec_find_found(rows.drop_first(), name);
    }
}

/// The parsed, read-only packed table.
pub struct PackedBuffer {
    entries: Vec<PackedEntry>,
}

/// The rows of `b`.
pub closed spec fn buffer_view(b: PackedBuffer) -> Seq<PackedEntryView> {
    b.entries@.map_values(|e: PackedEntry| e@)
}

/// Every row of `b` carries well-formed ids.
pub closed spec fn buffer_wf(b: PackedBuffer) -> bool {
    forall|i: int| 0 <= i < b.entries@.len() ==> (#[trigger] b.entries@[i]).wf()
}

/// Finds the first occurrence of `b` in `s` at or after `from`.
fn scan_byte(s: &Vec<u8>, from: usize, b: u8) -> (r: usize)
    requires
        from <= s@.len(),
    ensures
        r == from + find_byte(s@.skip(from as int), b),
        from <= r <= s@.len(),
        r < s@.len() ==> s@[r as int] == b,
        forall|j: int| from <= j < r ==> s@[j] != b,
{
    let mut i: usize = from;
    while i < s.len()
        invariant
            from <= i <= s@.len(),
            forall|j: int| from <= j < i ==> s@[j] != b,
        decreases s@.len() - i,
    {
        if s[i] == b {
            proof {
                assert(forall|j: int|
                    0 <= j < i - from ==> s@.skip(from as int)[j] == s@[j + from]);
                lemma_find_byte_is(s@.skip(from as int), b, i - from);
            }
            return i;
        }
        i = i + 1;
    }
    proof {
        assert(forall|j: int|
            0 <= j < s@.len() - from ==> s@.skip(from as int)[j] == s@[j + from]);
        lemma_find_byte_is(s@.skip(from as int), b, s@.len() - from);
    }
    s.len()
}

impl PackedBuffer {
    /// Parses the consolidated file's bytes. Succeeds exactly when every
    /// line is well-formed, yielding the rows in file order.
    pub fn parse(bytes: &Vec<u8>) -> (r: Result<PackedBuffer, ParseError>)
        ensures
            match r {
                Ok(b) => spec_parse_packed(bytes@) == Ok::<Seq<PackedEntryView>, ParseError>(
                    buffer_view(b),
                ) && buffer_wf(b),
                Err(e) => spec_parse_packed(bytes@) == Err::<Seq<PackedEntryView>, ParseError>(e),
            },
    {
        let mut entries: Vec<PackedEntry> = Vec::new();
        let mut pos: usize = 0;
        proof {
            assert(bytes@.skip(0) =~= bytes@);
            assert(entries@.map_values(|e: PackedEntry| e@) =~= Seq::<PackedEntryView>::empty());
        }
        loop
            invariant
                pos <= bytes@.len(),
                spec_parse_packed(bytes@) == parse_lines(
                    spec_lines(bytes@.skip(pos as int)),
                    entries@.map_values(|e: PackedEntry| e@),
                ),
                forall|i: int| 0 <= i < entries@.len() ==> (#[trigger] entries@[i]).wf(),
            decreases bytes@.len() - pos + 1,
        {
            let ghost suffix = bytes@.skip(pos as int);
            let ghost acc = entries@.map_values(|e: PackedEntry| e@);
            let nl = scan_byte(bytes, pos, 10);
            let ghost l = suffix.take(find_byte(suffix, 10) as int);
            proof {
                assert(forall|j: int|
                    0 <= j < suffix.len() ==> suffix[j] == bytes@[j + pos]);
                lemma_find_byte_is(suffix, 10, nl - pos);
                assert(l =~= bytes@.subrange(pos as int, nl as int));
                if nl < bytes@.len() {
                    assert(spec_lines(suffix) == seq![l] + spec_lines(suffix.skip(nl - pos + 1 as int)));
                    assert(suffix.skip(nl - pos + 1) =~= bytes@.skip(nl + 1 as int));
                    assert((seq![l] + spec_lines(bytes@.skip(nl + 1 as int)))[0] == l);
                    assert((seq![l] + spec_lines(bytes@.skip(nl + 1 as int))).drop_first()
                        =~= spec_lines(bytes@.skip(nl + 1 as int)));
                } else {
                    assert(spec_lines(suffix) == seq![suffix]);
                    assert(l =~= suffix);
                    assert(seq![l].drop_first() =~= Seq::<Seq<u8>>::empty());
                }
            }
            // Process the line bytes[pos .. nl].
            if nl == pos || bytes[pos] == 35 {
                // Empty line or comment: ignored.
                assert(l.len() == 0 || l[0] == 35);
            } else if bytes[pos] == 94 {
                // A peel annotation for the preceding entry.
                assert(l[0] == 94);
                let hex = copy_range(bytes, pos + 1, nl);
                assert(hex@ =~= l.skip(1));
                let id = match ObjectId::from_hex(&hex) {
                    Some(id) => id,
                    None => {
                        return Err(ParseError::BadPeel);
                    },
                };
                if entries.len() == 0 {
                    return Err(ParseError::BadPeel);
                }
                let last = match entries.pop() {
                    Some(e) => e,
                    None => {
                        return Err(ParseError::BadPeel);
                    },
                };
                if last.peeled.is_some() {
                    return Err(ParseError::BadPeel);
                }
                let ghost acc_pre = acc;
                let updated = PackedEntry { name: last.name, target: last.target, peeled: Some(id) };
                entries.push(updated);
                proof {
                    let accn = entries@.map_values(|e: PackedEntry| e@);
                    assert(accn =~= acc_pre.update(
                        acc_pre.len() - 1,
                        (acc_pre.last().0, acc_pre.last().1, Some(hex_decoded(l.skip(1)))),
                    ));
                }
            } else {
                // An entry line: forty hex digits, a space, then the name.
                let sp = scan_byte(bytes, pos, 32);
                proof {
                    assert(forall|j: int|
                        0 <= j < l.len() ==> l[j] == bytes@[j + pos]);
                    if sp < nl {
                        lemma_find_byte_is(l, 32, sp - pos);
                    } else {
                        lemma_find_byte_is(l, 32, l.len() as int);
                    }
                }
                if sp >= nl {
                    return Err(ParseError::BadEntry);
                }
                let hex = copy_range(bytes, pos, sp);
                assert(hex@ =~= l.take(sp - pos));
                let id = match ObjectId::from_hex(&hex) {
                    Some(id) => id,
                    None => {
                        return Err(ParseError::BadEntry);
                    },
                };
                let name = copy_range(bytes, sp + 1, nl);
                assert(name@ =~= l.skip(sp - pos + 1));
                if !crate::validate::name_partial_valid(&name) {
                    return Err(ParseError::BadEntry);
                }
                let ghost acc_pre = acc;
                entries.push(PackedEntry { name, target: id, peeled: None });
                proof {
                    let accn = entries@.map_values(|e: PackedEntry| e@);
                    assert(accn =~= acc_pre.push(
                        (l.skip(find_byte(l, 32) + 1 as int), hex_decoded(l.take(find_byte(l, 32) as int)), None),
                    ));
                }
            }
            if nl >= bytes.len() {
                // The last line is done.
                proof {
                    assert(parse_lines(
                        Seq::<Seq<u8>>::empty(),
                        entries@.map_values(|e: PackedEntry| e@),
                    ) == Ok::<Seq<PackedEntryView>, ParseError>(
                        entries@.map_values(|e: PackedEntry| e@),
                    ));
                }
                let buffer = PackedBuffer { entries };
                return Ok(buffer);
            }
            pos = nl + 1;
        }
    }

    /// The first row named `name`, if any.
    pub fn find(&self, name: &Vec<u8>) -> (r: Option<&PackedEntry>)
        ensures
            match r {
                Some(e) => spec_find(buffer_view(*self), name@) == Some(e@) && (buffer_wf(*self)
                    ==> e.wf()),
                None => spec_find(buffer_view(*self), name@) is None,
            },
    {
        let mut i: usize = 0;
        while i < self.entries.len()
            invariant
                i <= self.entries@.len(),
                forall|j: int| 0 <= j < i ==> buffer_view(*self)[j].0 != name@,
            decreases self.entries@.len() - i,
        {
            proof {
                lemma_spec_find_skip(buffer_view(*self), name@, i as int);
            }
            if bytes_eq(&self.entries[i].name, name) {
                assert(buffer_view(*self).skip(i as int)[0] == buffer_view(*self)[i as int]);
                return Some(&self.entries[i]);
            }
            i = i + 1;
        }
        proof {
            lemma_spec_find_skip(buffer_view(*self), name@, self.entries@.len() as int);
            assert(buffer_view(*self).skip(buffer_view(*self).len() as int) =~= Seq::<
                PackedEntryView,
            >::empty());
        }
        None
    }

    /// How many rows the table holds.
    pub fn len(&self) -> (n: usize)
        ensures
            n == buffer_view(*self).len(),
    {
        self.entries.len()
    }
}

} // verus!
