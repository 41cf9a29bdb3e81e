//! The reference store: anchors the on-disk layout at a base directory,
//! hands out loose-reference iterators, validates caller-supplied
//! prefixes, opens the packed table, and finds single references.

use vstd::prelude::*;

use crate::bytes::{bytes_clone, bytes_eq, join_path, join_spec};
use crate::disk::{Disk, IoKind};
use crate::hash::ObjectId;
use crate::iter::{loose_fpos, loose_walker, loose_wf, walker_base, walker_emitted, Loose};
use crate::packed::{buffer_view, buffer_wf, spec_find, PackedBuffer, ParseError};
use crate::reference::{DecodeError, LooseReference};
use crate::validate::{name_partial_valid, prefix_valid, valid_name, valid_prefix};

verus! {

/// Why the packed table could not be opened.
#[derive(Debug)]
pub enum OpenError {
    /// The consolidated file exists but could not be read.
    Io(IoKind),
    /// The consolidated file's content did not parse.
    Parse(ParseError),
}

/// Why a single-reference lookup failed.
#[derive(Debug)]
pub enum FindError {
    /// The candidate name is not syntactically legal.
    InvalidName,
    /// The loose file exists but could not be read.
    Read(IoKind),
    /// The loose file's content did not decode.
    Decode(DecodeError),
}

/// A found reference: backed by its own file, or by a packed-table row.
#[derive(Debug)]
pub enum FileRef {
    /// A loose reference.
    Loose(LooseReference),
    /// An owned copy of a packed-table row: name, target, optional
    /// precomputed peeled id.
    Packed(Vec<u8>, ObjectId, Option<ObjectId>),
}

/// The bytes `refs`, the subtree all references live under.
pub open spec fn refs_name() -> Seq<u8> {
    seq![114u8, 101u8, 102u8, 115u8]
}

/// The bytes `packed-refs`, the consolidated file's name.
pub open spec fn packed_refs_name() -> Seq<u8> {
    seq![112u8, 97u8, 99u8, 107u8, 101u8, 100u8, 45u8, 114u8, 101u8, 102u8, 115u8]
}

fn refs_component() -> (v: Vec<u8>)
    ensures
        v@ == refs_name(),
{
    let mut v: Vec<u8> = Vec::new();
    v.push(114);
    v.push(101);
    v.push(102);
    v.push(115);
    proof {
        assert(v@ =~= refs_name());
    }
    v
}

fn packed_refs_component() -> (v: Vec<u8>)
    ensures
        v@ == packed_refs_name(),
{
    let mut v: Vec<u8> = Vec::new();
    v.push(112);
    v.push(97);
    v.push(99);
    v.push(107);
    v.push(101);
    v.push(100);
    v.push(45);
    v.push(114);
    v.push(101);
    v.push(102);
    v.push(115);
    proof {
        assert(v@ =~= packed_refs_name());
    }
    v
}

/// The store: the repository's base directory, and nothing else.
pub struct Store {
    /// The base directory all paths are relative to.
    pub base: Vec<u8>,
}

impl Store {
    /// A store anchored at `base`.
    pub fn at(base: Vec<u8>) -> (s: Store)
        ensures
            s.base@ == base@,
    {
        Store { base }
    }

    /// A store anchored at the same base.
    pub fn duplicate(&self) -> (s: Store)
        ensures
            s.base@ == self.base@,
    {
        Store { base: bytes_clone(&self.base) }
    }

    /// The directory all loose references live under: `base/refs`.
    pub fn refs_dir(&self) -> (r: Vec<u8>)
        ensures
            r@ == join_spec(self.base@, refs_name()),
    {
        let refs = refs_component();
        join_path(&self.base, &refs)
    }

    /// Accepts exactly the relative, `.`-and-`..`-free prefixes.
    pub fn validate_prefix(&self, prefix: &Vec<u8>) -> (r: Result<(), IoKind>)
        ensures
            r == if valid_prefix(prefix@) {
                Ok::<(), IoKind>(())
            } else {
                Err::<(), IoKind>(IoKind::InvalidInput)
            },
    {
        if prefix_valid(prefix) {
            Ok(())
        } else {
            Err(IoKind::InvalidInput)
        }
    }

    /// An iterator over all loose references, in sorted order. Fails
    /// with `NotFound` when the `refs` subtree does not exist; each
    /// fault of the walk itself surfaces as one item of the sequence,
    /// ahead of the references, without ending the iteration.
    pub fn loose_iter<F: Disk>(&self, fs: &mut F) -> (r: Result<Loose, IoKind>)
        ensures
            match r {
                Ok(l) => {
                    &&& loose_wf(l)
                    &&& walker_base(loose_walker(l)) == self.base@
                    &&& walker_emitted(loose_walker(l)) == Seq::<
                        (Seq<u8>, Option<Seq<u8>>),
                    >::empty()
                    &&& loose_fpos(l) == 0
                },
                Err(k) => k == IoKind::NotFound,
            },
    {
        let refs = self.refs_dir();
        if !fs.is_dir(&refs) {
            return Err(IoKind::NotFound);
        }
        let walked = fs.walk(&refs);
        Ok(Loose::at_root(walked, bytes_clone(&self.base)))
    }

    /// An iterator over the loose references below `base/prefix`, in
    /// sorted order, with names still relative to the base. Fails with
    /// `InvalidInput`, before any disk access, exactly when the prefix
    /// is absolute or holds a `.` or `..` component.
    pub fn loose_iter_prefixed<F: Disk>(&self, fs: &mut F, prefix: &Vec<u8>) -> (r: Result<
        Loose,
        IoKind,
    >)
        ensures
            match r {
                Ok(l) => {
                    &&& valid_prefix(prefix@)
                    &&& loose_wf(l)
                    &&& walker_base(loose_walker(l)) == self.base@
                    &&& walker_emitted(loose_walker(l)) == Seq::<
                        (Seq<u8>, Option<Seq<u8>>),
                    >::empty()
                    &&& loose_fpos(l) == 0
                },
                Err(k) => !valid_prefix(prefix@) && k == IoKind::InvalidInput,
            },
    {
        if let Err(k) = self.validate_prefix(prefix) {
            return Err(k);
        }
        let root = join_path(&self.base, prefix);
        let walked = fs.walk(&root);
        Ok(Loose::at_root(walked, bytes_clone(&self.base)))
    }

    /// Opens the packed table at `base/packed-refs`: `Ok(None)` when the
    /// file does not exist, the parsed table when it reads and parses,
    /// and the reason otherwise.
    pub fn packed<F: Disk>(&self, fs: &mut F) -> (r: Result<Option<PackedBuffer>, OpenError>)
        ensures
            match r {
                Ok(Some(b)) => buffer_wf(b),
                Ok(None) => true,
                Err(OpenError::Io(k)) => k != IoKind::NotFound,
                Err(OpenError::Parse(_)) => true,
            },
    {
        let name = packed_refs_component();
        let path = join_path(&self.base, &name);
        let mut buf: Vec<u8> = Vec::new();
        match fs.read_file(&path, &mut buf) {
            Err(IoKind::NotFound) => Ok(None),
            Err(k) => Err(OpenError::Io(k)),
            Ok(()) => match PackedBuffer::parse(&buf) {
                Ok(b) => Ok(Some(b)),
                Err(e) => Err(OpenError::Parse(e)),
            },
        }
    }

    /// Finds the reference named `name`: the loose file at `base/name`
    /// when it exists and decodes, else the packed row of that name.
    /// Returns `Ok(None)` when neither holds it.
    pub fn find<F: Disk>(
        &self,
        name: &Vec<u8>,
        packed: Option<&PackedBuffer>,
        fs: &mut F,
    ) -> (r: Result<Option<FileRef>, FindError>)
        ensures
            match r {
                Err(FindError::InvalidName) => !valid_name(name@),
                Err(FindError::Read(k)) => valid_name(name@) && k != IoKind::NotFound,
                Err(FindError::Decode(_)) => valid_name(name@),
                Ok(Some(FileRef::Loose(lr))) => {
                    &&& valid_name(name@)
                    &&& lr.name@ == name@
                    &&& lr.peeled is None
                    &&& lr.wf()
                },
                Ok(Some(FileRef::Packed(n, t, p))) => {
                    &&& valid_name(name@)
                    &&& match packed {
                        Some(b) => spec_find(buffer_view(*b), name@) == Some(
                            (n@, t@, match p {
                                Some(id) => Some(id@),
                                None => None,
                            }),
                        ),
                        None => false,
                    }
                    &&& n@ == name@
                },
                Ok(None) => {
                    &&& valid_name(name@)
                    &&& match packed {
                        Some(b) => spec_find(buffer_view(*b), name@) is None,
                        None => true,
                    }
                },
            },
    {
        if !name_partial_valid(name) {
            return Err(FindError::InvalidName);
        }
        let path = join_path(&self.base, name);
        let mut buf: Vec<u8> = Vec::new();
        match fs.read_file(&path, &mut buf) {
            Ok(()) => {
                let name2 = bytes_clone(name);
                match crate::reference::decode(&buf, name2) {
                    Ok(lr) => Ok(Some(FileRef::Loose(lr))),
                    Err(e) => Err(FindError::Decode(e)),
                }
            },
            Err(IoKind::NotFound) => {
                match packed {
                    Some(b) => match b.find(name) {
                        Some(e) => {
                            proof {
                                crate::packed::lemma_spec_find_found(buffer_view(*b), name@);
                            }
                            let peeled = match &e.peeled {
                                Some(id) => Some(id.duplicate()),
                                None => None,
                            };
                            Ok(
                                Some(
                                    FileRef::Packed(
                                        bytes_clone(&e.name),
                                        e.target.duplicate(),
                                        peeled,
                                    ),
                                ),
                            )
                        },
                        None => Ok(None),
                    },
                    None => Ok(None),
                }
            },
            Err(k) => Err(FindError::Read(k)),
        }
    }
}

} // verus!
