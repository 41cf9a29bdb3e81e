//! Deterministic traversal of the loose-reference tree: a sorting,
//! validating walker over a directory listing, and a reader that decodes
//! each file it yields while tolerating per-entry failures.

use vstd::prelude::*;
use vstd::multiset::Multiset;
use vstd::relations::{sorted_by, total_ordering};

use crate::bytes::{
    bytes_clone, bytes_eq, is_under, lemma_lex_le_antisymmetric, lemma_lex_le_total,
    lemma_lex_le_transitive, lex_le, lex_le_bytes, rel_bytes, rel_to,
};
use crate::disk::{entries_view, entry_view, fault_kinds, ok_entries, DirEntry, Disk, IoKind};
use crate::reference::{spec_parse_target, DecodeError, LooseReference, TargetView};
use crate::validate::{name_partial_valid, valid_name};

verus! {

/// The order the walker yields entries in: by path, directories before a
/// file of the same path.
pub open spec fn pair_le(a: (Seq<u8>, bool), b: (Seq<u8>, bool)) -> bool {
    if a.0 == b.0 {
        !a.1 || b.1
    } else {
        lex_le(a.0, b.0)
    }
}

/// The walker's order, as a single function value usable with the
/// sorting vocabulary.
pub open spec fn entry_order() -> spec_fn((Seq<u8>, bool), (Seq<u8>, bool)) -> bool {
    |a: (Seq<u8>, bool), b: (Seq<u8>, bool)| pair_le(a, b)
}

/// `pair_le` orders any two entries, agreeing pairs being equal.
pub proof fn lemma_pair_le_total_ordering()
    ensures
        total_ordering(entry_order()),
{
    let leq = entry_order();
    assert forall|a: (Seq<u8>, bool)| #[trigger] leq(a, a) by {
        lemma_lex_le_total(a.0, a.0);
    }
    assert forall|a: (Seq<u8>, bool), b: (Seq<u8>, bool)| #[trigger] leq(a, b) || #[trigger] leq(
        b,
        a,
    ) by {
        lemma_lex_le_total(a.0, b.0);
    }
    assert forall|a: (Seq<u8>, bool), b: (Seq<u8>, bool)| #[trigger] leq(a, b) && #[trigger] leq(
        b,
        a,
    ) implies a == b by {
        if a.0 != b.0 {
            lemma_lex_le_antisymmetric(a.0, b.0);
        }
    }
    assert forall|a: (Seq<u8>, bool), b: (Seq<u8>, bool), c: (Seq<u8>, bool)|
        #[trigger] leq(a, b) && #[trigger] leq(b, c) implies leq(a, c) by {
        if a.0 == b.0 && b.0 == c.0 {
        } else if a.0 == b.0 {
        } else if b.0 == c.0 {
        } else {
            lemma_lex_le_transitive(a.0, b.0, c.0);
            if a.0 != c.0 {
            } else {
                lemma_lex_le_antisymmetric(a.0, b.0);
            }
        }
    }
}

/// `pair_le` on entries implies `lex_le` on their paths.
pub proof fn lemma_pair_le_paths(a: (Seq<u8>, bool), b: (Seq<u8>, bool))
    requires
        pair_le(a, b),
    ensures
        lex_le(a.0, b.0),
{
    if a.0 == b.0 {
        lemma_lex_le_total(a.0, a.0);
    }
}

/// Decides `pair_le` on two listing entries.
fn entry_le(a: &DirEntry, b: &DirEntry) -> (r: bool)
    ensures
        r == pair_le(entry_view(*a), entry_view(*b)),
{
    if bytes_eq(&a.path, &b.path) {
        !a.is_file || b.is_file
    } else {
        lex_le_bytes(&a.path, &b.path)
    }
}

/// Viewing a listing commutes with removing an element.
proof fn lemma_entries_view_remove(s: Seq<DirEntry>, i: int)
    requires
        0 <= i < s.len(),
    ensures
        entries_view(s.remove(i)) =~= entries_view(s).remove(i),
{
}

/// Sorts a listing by `pair_le`; the result holds the same entries.
pub fn sort_entries(entries: Vec<DirEntry>) -> (r: Vec<DirEntry>)
    ensures
        sorted_by(entries_view(r@), entry_order()),
        entries_view(r@).to_multiset() == entries_view(entries@).to_multiset(),
{
    broadcast use vstd::seq_lib::group_to_multiset_ensures;
    broadcast use vstd::multiset::group_multiset_axioms;

    let mut v = entries;
    let mut out: Vec<DirEntry> = Vec::new();
    proof {
        assert(entries_view(out@) =~= Seq::<(Seq<u8>, bool)>::empty());
        assert(entries_view(out@).to_multiset().add(entries_view(v@).to_multiset()) =~= entries_view(
            v@,
        ).to_multiset());
    }
    while v.len() > 0
        invariant
            entries_view(out@).to_multiset().add(entries_view(v@).to_multiset())
                == entries_view(entries@).to_multiset(),
            sorted_by(entries_view(out@), entry_order()),
            forall|x: int, y: int|
                0 <= x < out@.len() && 0 <= y < v@.len() ==> pair_le(
                    #[trigger] entries_view(out@)[x],
                    #[trigger] entries_view(v@)[y],
                ),
        decreases v@.len(),
    {
        // Find the least remaining entry.
        let mut m: usize = 0;
        let mut i: usize = 1;
        while i < v.len()
            invariant
                m < i <= v@.len(),
                v@.len() > 0,
                forall|j: int|
                    0 <= j < i ==> pair_le(entries_view(v@)[m as int], #[trigger] entries_view(
                        v@,
                    )[j]),
            decreases v@.len() - i,
        {
            if entry_le(&v[i], &v[m]) {
                proof {
                    lemma_pair_le_total_ordering();
                    let leq2 = entry_order();
                    assert forall|j: int| 0 <= j < i + 1 implies pair_le(
                        entries_view(v@)[i as int],
                        #[trigger] entries_view(v@)[j],
                    ) by {
                        assert(leq2(entries_view(v@)[i as int], entries_view(v@)[m as int]));
                        assert(leq2(entries_view(v@)[m as int], entries_view(v@)[j]) || j == i);
                        assert(leq2(entries_view(v@)[i as int], entries_view(v@)[j]) || j == i);
                    }
                }
                m = i;
            } else {
                proof {
                    lemma_pair_le_total_ordering();
                    let leq2 = entry_order();
                    assert(leq2(entries_view(v@)[m as int], entries_view(v@)[i as int])
                        || leq2(entries_view(v@)[i as int], entries_view(v@)[m as int]));
                }
            }
            i = i + 1;
        }
        let ghost v_pre = v@;
        let ghost out_pre = out@;
        let ghost picked = entries_view(v@)[m as int];
        let e = v.remove(m);
        proof {
            assert(entry_view(e) == picked);
            lemma_entries_view_remove(v_pre, m as int);
            assert(entries_view(v@) =~= entries_view(v_pre).remove(m as int));
        }
        out.push(e);
        proof {
            crate::disk::lemma_entries_view_push(out_pre, e);
            assert(entries_view(out@) =~= entries_view(out_pre).push(picked));
            // Multisets: moving the picked entry keeps the union.
            assert(entries_view(v_pre)[m as int] == picked);
            vstd::seq_lib::to_multiset_remove(entries_view(v_pre), m as int);
            assert(entries_view(v@).to_multiset() =~= entries_view(v_pre).to_multiset().remove(
                picked,
            ));
            vstd::seq_lib::to_multiset_build(entries_view(out_pre), picked);
            assert(entries_view(out@).to_multiset() =~= entries_view(out_pre).to_multiset().insert(
                picked,
            ));
            broadcast use vstd::multiset::group_multiset_axioms;
            vstd::seq_lib::to_multiset_contains(entries_view(v_pre), picked);
            assert(entries_view(v_pre).to_multiset().count(picked) > 0);
            assert(entries_view(out@).to_multiset().add(entries_view(v@).to_multiset())
                =~= entries_view(out_pre).to_multiset().add(entries_view(v_pre).to_multiset()));
            // Order: everything already emitted precedes the picked entry,
            // and the picked entry precedes everything left.
            assert forall|y: int| 0 <= y < v@.len() implies pair_le(
                picked,
                #[trigger] entries_view(v@)[y],
            ) by {
                if y < m as int {
                    assert(entries_view(v@)[y] == entries_view(v_pre)[y]);
                } else {
                    assert(entries_view(v@)[y] == entries_view(v_pre)[y + 1]);
                }
            }
            assert forall|x: int, y: int|
                0 <= x < y < entries_view(out@).len() implies pair_le(
                #[trigger] entries_view(out@)[x],
                #[trigger] entries_view(out@)[y],
            ) by {
                assert(entries_view(out@)[x] == entries_view(out_pre)[x]);
                if y < out_pre.len() as int {
                    assert(entries_view(out@)[y] == entries_view(out_pre)[y]);
                    assert(sorted_by(entries_view(out_pre), entry_order()));
                    assert(entry_order()(entries_view(out_pre)[x], entries_view(out_pre)[y]));
                } else {
                    assert(entries_view(out@)[y] == picked);
                    assert(pair_le(entries_view(out_pre)[x], entries_view(v_pre)[m as int]));
                }
            }
        }
    }
    proof {
        broadcast use vstd::multiset::group_multiset_axioms;
        assert(entries_view(v@) =~= Seq::<(Seq<u8>, bool)>::empty());
        vstd::seq_lib::to_multiset_len(entries_view(v@));
        assert(entries_view(v@).to_multiset() =~= Multiset::<(Seq<u8>, bool)>::empty());
        assert(entries_view(out@).to_multiset() =~= entries_view(out@).to_multiset().add(
            entries_view(v@).to_multiset(),
        ));
    }
    out
}

/// Whether the walker keeps a listing entry: a regular file below the
/// base whose relative path is a legal reference name.
pub open spec fn keeps(base: Seq<u8>, e: (Seq<u8>, bool)) -> bool {
    e.1 && is_under(base, e.0) && valid_name(rel_to(base, e.0))
}

/// What the walker yields for a kept entry.
pub open spec fn yield_item(base: Seq<u8>, e: (Seq<u8>, bool), with_names: bool) -> (
    Seq<u8>,
    Option<Seq<u8>>,
) {
    (e.0, if with_names {
        Some(rel_to(base, e.0))
    } else {
        None
    })
}

/// Everything the walker yields from the listing `s`, in listing order.
pub open spec fn walk_yield(base: Seq<u8>, s: Seq<(Seq<u8>, bool)>, with_names: bool) -> Seq<
    (Seq<u8>, Option<Seq<u8>>),
>
    decreases s.len(),
{
    if s.len() == 0 {
        Seq::empty()
    } else {
        walk_yield(base, s.drop_last(), with_names) + (if keeps(base, s.last()) {
            seq![yield_item(base, s.last(), with_names)]
        } else {
            Seq::empty()
        })
    }
}

/// The yield of a concatenation is the concatenation of the yields.
pub proof fn lemma_walk_yield_concat(
    base: Seq<u8>,
    a: Seq<(Seq<u8>, bool)>,
    b: Seq<(Seq<u8>, bool)>,
    wn: bool,
)
    ensures
        walk_yield(base, a + b, wn) == walk_yield(base, a, wn) + walk_yield(base, b, wn),
    decreases b.len(),
{
    if b.len() == 0 {
        assert(a + b =~= a);
        assert(walk_yield(base, a, wn) + walk_yield(base, b, wn) =~= walk_yield(base, a, wn));
    } else {
        assert((a + b).drop_last() =~= a + b.drop_last());
        assert((a + b).last() == b.last());
        lemma_walk_yield_concat(base, a, b.drop_last(), wn);
        assert(walk_yield(base, a + b, wn) =~= walk_yield(base, a, wn) + walk_yield(base, b, wn));
    }
}

/// Every yielded item names a kept entry of the listing.
pub proof fn lemma_walk_yield_items(base: Seq<u8>, s: Seq<(Seq<u8>, bool)>, wn: bool, k: int)
    requires
        0 <= k < walk_yield(base, s, wn).len(),
    ensures
        is_under(base, walk_yield(base, s, wn)[k].0),
        valid_name(rel_to(base, walk_yield(base, s, wn)[k].0)),
        walk_yield(base, s, wn)[k].1 == if wn {
            Some(rel_to(base, walk_yield(base, s, wn)[k].0))
        } else {
            None::<Seq<u8>>
        },
        exists|i: int|
            0 <= i < s.len() && keeps(base, #[trigger] s[i]) && walk_yield(base, s, wn)[k]
                == yield_item(base, s[i], wn),
    decreases s.len(),
{
    if s.len() > 0 {
        if k < walk_yield(base, s.drop_last(), wn).len() {
            lemma_walk_yield_items(base, s.drop_last(), wn, k);
            let i = choose|i: int|
                0 <= i < s.drop_last().len() && keeps(base, #[trigger] s.drop_last()[i])
                    && walk_yield(base, s.drop_last(), wn)[k] == yield_item(
                    base,
                    s.drop_last()[i],
                    wn,
                );
            assert(s[i] == s.drop_last()[i]);
            assert(keeps(base, s[i]) && walk_yield(base, s, wn)[k] == yield_item(base, s[i], wn));
        } else {
            assert(keeps(base, s.last()));
            assert(walk_yield(base, s, wn)[k] == yield_item(base, s.last(), wn));
            assert(s[s.len() - 1] == s.last());
        }
    }
}

/// Which parts of a yielded pair the walker materializes.
#[derive(Debug, Copy, Clone, Eq, PartialEq, Structural)]
pub enum LoosePathsMode {
    /// Paths only.
    Paths,
    /// Paths together with the validated relative names.
    PathsAndNames,
}

/// An iterator over all valid loose reference paths below a base, in
/// sorted order regardless of the listing order it was built from.
pub struct SortedLoosePaths {
    base: Vec<u8>,
    entries: Vec<DirEntry>,
    pos: usize,
    mode: LoosePathsMode,
}

/// The base directory of the walker.
pub closed spec fn walker_base(w: SortedLoosePaths) -> Seq<u8> {
    w.base@
}

/// The sorted listing the walker traverses.
pub closed spec fn walker_entries(w: SortedLoosePaths) -> Seq<(Seq<u8>, bool)> {
    entries_view(w.entries@)
}

/// How far the walker has come.
pub closed spec fn walker_pos(w: SortedLoosePaths) -> int {
    w.pos as int
}

/// Whether the walker materializes names.
pub closed spec fn walker_names(w: SortedLoosePaths) -> bool {
    w.mode is PathsAndNames
}

/// The walker's well-formedness: position in range, listing sorted.
pub open spec fn walker_wf(w: SortedLoosePaths) -> bool {
    &&& 0 <= walker_pos(w) <= walker_entries(w).len()
    &&& sorted_by(walker_entries(w), entry_order())
}

/// Everything this walker will ever yield.
pub open spec fn walker_output(w: SortedLoosePaths) -> Seq<(Seq<u8>, Option<Seq<u8>>)> {
    walk_yield(walker_base(w), walker_entries(w), walker_names(w))
}

/// What this walker has yielded so far.
pub open spec fn walker_emitted(w: SortedLoosePaths) -> Seq<(Seq<u8>, Option<Seq<u8>>)> {
    walk_yield(walker_base(w), walker_entries(w).take(walker_pos(w)), walker_names(w))
}

impl SortedLoosePaths {
    fn new(entries: Vec<DirEntry>, base: Vec<u8>, mode: LoosePathsMode) -> (w: SortedLoosePaths)
        ensures
            walker_wf(w),
            walker_base(w) == base@,
            walker_names(w) == (mode is PathsAndNames),
            walker_entries(w).to_multiset() == entries_view(entries@).to_multiset(),
            walker_emitted(w) == Seq::<(Seq<u8>, Option<Seq<u8>>)>::empty(),
    {
        let sorted = sort_entries(entries);
        let w = SortedLoosePaths { base, entries: sorted, pos: 0, mode };
        proof {
            assert(walker_entries(w).take(0) =~= Seq::<(Seq<u8>, bool)>::empty());
        }
        w
    }

    /// A walker over `entries` yielding paths only.
    pub fn at_root(entries: Vec<DirEntry>, base: Vec<u8>) -> (w: SortedLoosePaths)
        ensures
            walker_wf(w),
            walker_base(w) == base@,
            !walker_names(w),
            walker_entries(w).to_multiset() == entries_view(entries@).to_multiset(),
            walker_emitted(w) == Seq::<(Seq<u8>, Option<Seq<u8>>)>::empty(),
    {
        Self::new(entries, base, LoosePathsMode::Paths)
    }

    /// A walker over `entries` yielding paths with their names.
    pub fn at_root_with_names(entries: Vec<DirEntry>, base: Vec<u8>) -> (w: SortedLoosePaths)
        ensures
            walker_wf(w),
            walker_base(w) == base@,
            walker_names(w),
            walker_entries(w).to_multiset() == entries_view(entries@).to_multiset(),
            walker_emitted(w) == Seq::<(Seq<u8>, Option<Seq<u8>>)>::empty(),
    {
        Self::new(entries, base, LoosePathsMode::PathsAndNames)
    }

    /// The next valid loose reference path, with its name when names are
    /// materialized; `None` once the listing is exhausted.
    pub fn next(&mut self) -> (r: Option<(Vec<u8>, Option<Vec<u8>>)>)
        requires
            walker_wf(*old(self)),
        ensures
            walker_wf(*final(self)),
            walker_base(*final(self)) == walker_base(*old(self)),
            walker_entries(*final(self)) == walker_entries(*old(self)),
            walker_names(*final(self)) == walker_names(*old(self)),
            match r {
                Some(item) => {
                    &&& walker_emitted(*old(self)).len() < walker_output(*old(self)).len()
                    &&& walker_emitted(*final(self)) == walker_emitted(*old(self)).push(
                        (item.0@, match item.1 {
                            Some(n) => Some(n@),
                            None => None,
                        }),
                    )
                    &&& (item.0@, match item.1 {
                        Some(n) => Some(n@),
                        None => None,
                    }) == walker_output(*old(self))[walker_emitted(*old(self)).len() as int]
                },
                None => {
                    &&& walker_emitted(*final(self)) == walker_emitted(*old(self))
                    &&& walker_emitted(*final(self)) == walker_output(*final(self))
                },
            },
    {
        while self.pos < self.entries.len()
            invariant
                walker_wf(*self),
                walker_base(*self) == walker_base(*old(self)),
                walker_entries(*self) == walker_entries(*old(self)),
                walker_names(*self) == walker_names(*old(self)),
                walker_pos(*old(self)) <= walker_pos(*self),
                walker_emitted(*self) == walker_emitted(*old(self)),
            decreases self.entries@.len() - self.pos,
        {
            let ghost pre = *self;
            let ghost taken = walker_entries(*self).take(walker_pos(*self));
            proof {
                assert(walker_entries(*self).take(walker_pos(*self) + 1).drop_last() =~= taken);
                assert(walker_entries(*self).take(walker_pos(*self) + 1).last()
                    == walker_entries(*self)[walker_pos(*self)]);
            }
            let e_is_file = self.entries[self.pos].is_file;
            let keep = if !e_is_file {
                false
            } else if !crate::bytes::under_dir(&self.base, &self.entries[self.pos].path) {
                false
            } else {
                let rel = rel_bytes(&self.base, &self.entries[self.pos].path);
                name_partial_valid(&rel)
            };
            if keep {
                let path = bytes_clone(&self.entries[self.pos].path);
                let name = match self.mode {
                    LoosePathsMode::Paths => None,
                    LoosePathsMode::PathsAndNames => Some(
                        rel_bytes(&self.base, &self.entries[self.pos].path),
                    ),
                };
                let ghost item = yield_item(
                    walker_base(*self),
                    walker_entries(*self)[walker_pos(*self)],
                    walker_names(*self),
                );
                self.pos = self.pos + 1;
                proof {
                    assert(walker_emitted(*self) =~= walker_emitted(pre).push(item));
                    // The item yielded is the next one of the full output.
                    let all = walker_entries(*self);
                    let p = walker_pos(*self);
                    assert(all =~= all.take(p) + all.skip(p));
                    lemma_walk_yield_concat(
                        walker_base(*self),
                        all.take(p),
                        all.skip(p),
                        walker_names(*self),
                    );
                    assert(walker_output(*self) == walker_emitted(*self) + walk_yield(
                        walker_base(*self),
                        all.skip(p),
                        walker_names(*self),
                    ));
                    assert(walker_emitted(pre).len() < walker_output(*self).len());
                    assert(walker_output(*self)[walker_emitted(pre).len() as int] == item);
                }
                return Some((path, name));
            }
            proof {
                assert(walker_emitted(
                    SortedLoosePaths {
                        pos: (pre.pos + 1) as usize,
                        base: pre.base,
                        entries: pre.entries,
                        mode: pre.mode,
                    },
                ) =~= walker_emitted(pre));
            }
            self.pos = self.pos + 1;
        }
        proof {
            let all = walker_entries(*self);
            assert(all.take(walker_pos(*self)) =~= all);
        }
        None
    }
}

/// Why one position of a loose-reference iteration failed.
#[derive(Debug)]
pub enum LooseError {
    /// The directory walk failed at this position.
    Traversal(IoKind),
    /// A yielded file could not be read.
    ReadFileContents(IoKind),
    /// A yielded file's content did not decode as a reference.
    ReferenceCreation {
        /// The decode failure.
        err: DecodeError,
        /// The name the file would have had.
        relative_path: Vec<u8>,
    },
}

/// An iterator over all loose references below a base directory: reads
/// and decodes each file the walker yields. Every item is independently
/// fallible; one bad file never hides the rest, and the walk's own
/// faults are reported as items of the sequence before the references,
/// one per failed position, without ending the iteration.
pub struct Loose {
    paths: SortedLoosePaths,
    faults: Vec<IoKind>,
    fpos: usize,
    buf: Vec<u8>,
}

/// The walker this reader drives.
pub closed spec fn loose_walker(l: Loose) -> SortedLoosePaths {
    l.paths
}

/// The traversal faults this reader reports, in walk order.
pub closed spec fn loose_faults(l: Loose) -> Seq<IoKind> {
    l.faults@
}

/// How many traversal faults have been reported so far.
pub closed spec fn loose_fpos(l: Loose) -> int {
    l.fpos as int
}

/// The scratch buffer holding the bytes last read.
pub closed spec fn loose_buf(l: Loose) -> Seq<u8> {
    l.buf@
}

/// The reader's well-formedness.
pub open spec fn loose_wf(l: Loose) -> bool {
    &&& walker_wf(loose_walker(l))
    &&& 0 <= loose_fpos(l) <= loose_faults(l).len()
}

impl Loose {
    /// A reader over the outcome of walking `root`: the listing's
    /// entries feed the walker, and its faults are kept to be reported
    /// first, in order, one item each.
    pub fn at_root(walked: Vec<Result<DirEntry, IoKind>>, base: Vec<u8>) -> (l: Loose)
        ensures
            loose_wf(l),
            walker_base(loose_walker(l)) == base@,
            walker_emitted(loose_walker(l)) == Seq::<(Seq<u8>, Option<Seq<u8>>)>::empty(),
            walker_entries(loose_walker(l)).to_multiset() == ok_entries(walked@).to_multiset(),
            loose_faults(l) == fault_kinds(walked@),
            loose_fpos(l) == 0,
    {
        let ghost orig = walked@;
        let mut rest = walked;
        let mut entries: Vec<DirEntry> = Vec::new();
        let mut faults: Vec<IoKind> = Vec::new();
        proof {
            assert(orig.take(0) =~= Seq::<Result<DirEntry, IoKind>>::empty());
            assert(entries_view(entries@) =~= ok_entries(orig.take(0)));
            assert(faults@ =~= fault_kinds(orig.take(0)));
            assert(rest@ =~= orig.skip(orig.len() - rest@.len()));
        }
        while rest.len() > 0
            invariant
                rest@.len() <= orig.len(),
                rest@ =~= orig.skip(orig.len() - rest@.len()),
                entries_view(entries@) =~= ok_entries(orig.take(orig.len() - rest@.len())),
                faults@ =~= fault_kinds(orig.take(orig.len() - rest@.len())),
            decreases rest@.len(),
        {
            let ghost k = orig.len() - rest@.len();
            let x = rest.remove(0);
            proof {
                assert(x == orig[k]);
                assert(orig.take(k + 1).drop_last() =~= orig.take(k));
                assert(orig.take(k + 1).last() == orig[k]);
                assert(rest@ =~= orig.skip(k + 1));
            }
            match x {
                Ok(e) => {
                    let ghost entries_pre = entries@;
                    let ghost ev = entry_view(e);
                    entries.push(e);
                    proof {
                        crate::disk::lemma_entries_view_push(entries_pre, entries@.last());
                        assert(entries@ =~= entries_pre.push(entries@.last()));
                        assert(entries_view(entries@) =~= ok_entries(orig.take(k + 1)));
                        assert(faults@ =~= fault_kinds(orig.take(k + 1)));
                    }
                },
                Err(kind) => {
                    faults.push(kind);
                    proof {
                        assert(faults@ =~= fault_kinds(orig.take(k + 1)));
                        assert(entries_view(entries@) =~= ok_entries(orig.take(k + 1)));
                    }
                },
            }
            proof {
                assert(rest@ =~= orig.skip(orig.len() - rest@.len()));
            }
        }
        proof {
            assert(orig.take(orig.len() - rest@.len()) =~= orig);
        }
        Loose {
            paths: SortedLoosePaths::at_root(entries, base),
            faults,
            fpos: 0,
            buf: Vec::new(),
        }
    }

    /// The next loose reference, or the failure that stands at this
    /// position: first each traversal fault of the walk, one item per
    /// fault, then per file an unreadable file or a file whose content
    /// does not decode. `None` once the sequence is exhausted.
    pub fn next<F: Disk>(&mut self, fs: &mut F) -> (r: Option<Result<LooseReference, LooseError>>)
        requires
            loose_wf(*old(self)),
        ensures
            loose_wf(*final(self)),
            walker_base(loose_walker(*final(self))) == walker_base(loose_walker(*old(self))),
            walker_entries(loose_walker(*final(self))) == walker_entries(loose_walker(*old(self))),
            loose_faults(*final(self)) == loose_faults(*old(self)),
            match r {
                None => {
                    &&& loose_fpos(*old(self)) == loose_faults(*old(self)).len()
                    &&& loose_fpos(*final(self)) == loose_fpos(*old(self))
                    &&& walker_emitted(loose_walker(*final(self))) == walker_emitted(
                        loose_walker(*old(self)),
                    )
                    &&& walker_emitted(loose_walker(*final(self))) == walker_output(
                        loose_walker(*final(self)),
                    )
                },
                Some(item) => match item {
                    Err(LooseError::Traversal(k)) => {
                        &&& loose_fpos(*old(self)) < loose_faults(*old(self)).len()
                        &&& k == loose_faults(*old(self))[loose_fpos(*old(self))]
                        &&& loose_fpos(*final(self)) == loose_fpos(*old(self)) + 1
                        &&& walker_emitted(loose_walker(*final(self))) == walker_emitted(
                            loose_walker(*old(self)),
                        )
                    },
                    _ => {
                        &&& loose_fpos(*old(self)) == loose_faults(*old(self)).len()
                        &&& loose_fpos(*final(self)) == loose_fpos(*old(self))
                        &&& walker_emitted(loose_walker(*old(self))).len() < walker_output(
                            loose_walker(*old(self)),
                        ).len()
                        &&& walker_emitted(loose_walker(*final(self))) == walker_emitted(
                            loose_walker(*old(self)),
                        ).push(
                            walker_output(loose_walker(*old(self)))[walker_emitted(
                                loose_walker(*old(self)),
                            ).len() as int],
                        )
                        &&& {
                            let yielded = walker_output(loose_walker(*old(self)))[walker_emitted(
                                loose_walker(*old(self)),
                            ).len() as int];
                            match item {
                                Ok(lr) => {
                                    &&& spec_parse_target(loose_buf(*final(self))) == Ok::<
                                        TargetView,
                                        DecodeError,
                                    >(lr.target@)
                                    &&& lr.name@ == rel_to(
                                        walker_base(loose_walker(*old(self))),
                                        yielded.0,
                                    )
                                    &&& lr.peeled is None
                                    &&& lr.wf()
                                },
                                Err(LooseError::ReadFileContents(_)) => true,
                                Err(LooseError::ReferenceCreation { err, relative_path }) => {
                                    &&& spec_parse_target(loose_buf(*final(self))) == Err::<
                                        TargetView,
                                        DecodeError,
                                    >(err)
                                    &&& relative_path@ == rel_to(
                                        walker_base(loose_walker(*old(self))),
                                        yielded.0,
                                    )
                                },
                                Err(LooseError::Traversal(_)) => false,
                            }
                        }
                    },
                },
            },
    {
        if self.fpos < self.faults.len() {
            let k = self.faults[self.fpos];
            self.fpos = self.fpos + 1;
            return Some(Err(LooseError::Traversal(k)));
        }
        let ghost walker_pre = self.paths;
        let item = self.paths.next();
        match item {
            None => None,
            Some((path, _name)) => {
                proof {
                    let out = walker_output(walker_pre);
                    let k = walker_emitted(walker_pre).len() as int;
                    lemma_walk_yield_items(
                        walker_base(walker_pre),
                        walker_entries(walker_pre),
                        walker_names(walker_pre),
                        k,
                    );
                    assert(is_under(walker_base(walker_pre), path@));
                    assert(valid_name(rel_to(walker_base(walker_pre), path@)));
                }
                let rel = rel_bytes(&self.paths.base, &path);
                match fs.read_file(&path, &mut self.buf) {
                    Err(k) => Some(Err(LooseError::ReadFileContents(k))),
                    Ok(()) => {
                        match crate::reference::decode(&self.buf, rel) {
                            Ok(lr) => Some(Ok(lr)),
                            Err(err) => {
                                let rel2 = rel_bytes(&self.paths.base, &path);
                                Some(
                                    Err(
                                        LooseError::ReferenceCreation {
                                            err,
                                            relative_path: rel2,
                                        },
                                    ),
                                )
                            },
                        }
                    },
                }
            },
        }
    }
}

} // verus!
