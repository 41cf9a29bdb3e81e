//! The on-disk layout as a capability: a directory tree that can be
//! listed and whose files can be read.
//!
//! The store never touches a real file system itself; it asks a [`Disk`]
//! for listings and file contents and is verified against whatever the
//! capability answers. [`MemDisk`] is a verified in-memory tree with an
//! exact contract for every operation; a process wanting real storage
//! supplies its own implementation outside the library.

use vstd::prelude::*;

use crate::bytes::{bytes_clone, bytes_eq, is_under, under_dir};

verus! {

/// The failure classes a disk can report.
#[derive(Debug, Copy, Clone, Eq, PartialEq, Structural)]
pub enum IoKind {
    /// The named directory or file does not exist.
    NotFound,
    /// The caller-supplied path was not acceptable.
    InvalidInput,
    /// The disk refused access.
    PermissionDenied,
    /// Any other failure.
    Other,
}

/// One entry of a recursive directory listing.
pub struct DirEntry {
    /// The full path of the entry, from the same root the walk was asked for.
    pub path: Vec<u8>,
    /// True for a regular file, false for a directory.
    pub is_file: bool,
}

/// The mathematical content of one entry: its path and its file flag.
pub open spec fn entry_view(e: DirEntry) -> (Seq<u8>, bool) {
    (e.path@, e.is_file)
}

/// The mathematical content of a listing.
pub open spec fn entries_view(s: Seq<DirEntry>) -> Seq<(Seq<u8>, bool)> {
    s.map_values(|e: DirEntry| entry_view(e))
}

/// The entries of a fallible listing, in order, faults left out.
pub open spec fn ok_entries(s: Seq<Result<DirEntry, IoKind>>) -> Seq<(Seq<u8>, bool)>
    decreases s.len(),
{
    if s.len() == 0 {
        Seq::empty()
    } else {
        ok_entries(s.drop_last()) + (match s.last() {
            Ok(e) => seq![entry_view(e)],
            Err(_) => Seq::empty(),
        })
    }
}

/// The traversal faults of a fallible listing, in order.
pub open spec fn fault_kinds(s: Seq<Result<DirEntry, IoKind>>) -> Seq<IoKind>
    decreases s.len(),
{
    if s.len() == 0 {
        Seq::empty()
    } else {
        fault_kinds(s.drop_last()) + (match s.last() {
            Ok(_) => Seq::empty(),
            Err(k) => seq![k],
        })
    }
}

/// Read access to a directory tree. Implementations outside the library
/// carry no contract: verified callers state what they do with every
/// possible answer.
pub trait Disk {
    /// Whether `path` names a directory.
    fn is_dir(&mut self, path: &Vec<u8>) -> bool;

    /// The recursive listing below `root`, in no particular order; a file
    /// at `root` itself is included. Each item is independently
    /// fallible: an `Err` reports a traversal failure at that position
    /// of the walk and the listing goes on past it.
    fn walk(&mut self, root: &Vec<u8>) -> Vec<Result<DirEntry, IoKind>>;

    /// Replaces `buf` with the contents of the file at `path`.
    fn read_file(&mut self, path: &Vec<u8>, buf: &mut Vec<u8>) -> Result<(), IoKind>;
}

/// One file of an in-memory tree.
pub struct MemFile {
    /// The full path of the file.
    pub path: Vec<u8>,
    /// The file's contents.
    pub data: Vec<u8>,
}

/// A verified in-memory directory tree. Directories and files keep their
/// insertion order, so a listing's order is whatever order the tree was
/// built in; the store must not rely on it. Recorded traversal faults
/// are reported by every walk, ahead of its entries.
pub struct MemDisk {
    dirs: Vec<Vec<u8>>,
    files: Vec<MemFile>,
    faults: Vec<IoKind>,
    reads: u64,
}

/// The dirs of `m`, as paths.
pub closed spec fn mem_dirs(m: MemDisk) -> Seq<Seq<u8>> {
    m.dirs@.map_values(|d: Vec<u8>| d@)
}

/// The files of `m`, as path/content pairs.
pub closed spec fn mem_files(m: MemDisk) -> Seq<(Seq<u8>, Seq<u8>)> {
    m.files@.map_values(|f: MemFile| (f.path@, f.data@))
}

/// The traversal faults `m` reports on every walk.
pub closed spec fn mem_faults(m: MemDisk) -> Seq<IoKind> {
    m.faults@
}

/// How many file reads `m` has answered.
pub closed spec fn mem_reads(m: MemDisk) -> u64 {
    m.reads
}

/// The first file of `fs` whose path is `p`, if any.
pub open spec fn first_file(fs: Seq<(Seq<u8>, Seq<u8>)>, p: Seq<u8>) -> Option<(Seq<u8>, Seq<u8>)>
    decreases fs.len(),
{
    if fs.len() == 0 {
        None
    } else if fs[0].0 == p {
        Some(fs[0])
    } else {
        first_file(fs.drop_first(), p)
    }
}

/// Skipping entries that do not match leaves the first match unchanged.
pub proof fn lemma_first_file_skip(fs: Seq<(Seq<u8>, Seq<u8>)>, p: Seq<u8>, k: int)
    requires
        0 <= k <= fs.len(),
        forall|i: int| 0 <= i < k ==> fs[i].0 != p,
    ensures
        first_file(fs, p) == first_file(fs.skip(k), p),
    decreases k,
{
    if k > 0 {
        assert(fs.drop_first().skip(k - 1) =~= fs.skip(k));
        assert(forall|i: int| 0 <= i < k - 1 ==> fs.drop_first()[i].0 != p);
        lemma_first_file_skip(fs.drop_first(), p, k - 1);
    } else {
        assert(fs.skip(0) =~= fs);
    }
}

/// The listing a walk of `root` produces from the dirs `ds`: every dir
/// strictly under `root`, in stored order.
pub open spec fn walk_dirs_spec(ds: Seq<Seq<u8>>, root: Seq<u8>) -> Seq<(Seq<u8>, bool)>
    decreases ds.len(),
{
    if ds.len() == 0 {
        Seq::empty()
    } else {
        walk_dirs_spec(ds.drop_last(), root) + (if is_under(root, ds.last()) {
            seq![(ds.last(), false)]
        } else {
            Seq::empty()
        })
    }
}

/// The listing a walk of `root` produces from the files `fs`: every file
/// strictly under `root`, or at `root` itself, in stored order.
pub open spec fn walk_files_spec(fs: Seq<(Seq<u8>, Seq<u8>)>, root: Seq<u8>) -> Seq<
    (Seq<u8>, bool),
>
    decreases fs.len(),
{
    if fs.len() == 0 {
        Seq::empty()
    } else {
        walk_files_spec(fs.drop_last(), root) + (if is_under(root, fs.last().0) || fs.last().0
            == root {
            seq![(fs.last().0, true)]
        } else {
            Seq::empty()
        })
    }
}

/// Viewing a listing commutes with appending to it.
pub proof fn lemma_entries_view_push(s: Seq<DirEntry>, e: DirEntry)
    ensures
        entries_view(s.push(e)) =~= entries_view(s).push(entry_view(e)),
{
}

/// The full listing of a walk of `root`: dirs first, then files.
pub open spec fn mem_walk_spec(m: MemDisk, root: Seq<u8>) -> Seq<(Seq<u8>, bool)> {
    walk_dirs_spec(mem_dirs(m), root) + walk_files_spec(mem_files(m), root)
}

impl MemDisk {
    /// An empty tree.
    pub fn new() -> (m: MemDisk)
        ensures
            mem_dirs(m) == Seq::<Seq<u8>>::empty(),
            mem_files(m) == Seq::<(Seq<u8>, Seq<u8>)>::empty(),
            mem_faults(m) == Seq::<IoKind>::empty(),
            mem_reads(m) == 0,
    {
        let m = MemDisk { dirs: Vec::new(), files: Vec::new(), faults: Vec::new(), reads: 0 };
        proof {
            assert(mem_dirs(m) =~= Seq::<Seq<u8>>::empty());
            assert(mem_files(m) =~= Seq::<(Seq<u8>, Seq<u8>)>::empty());
        }
        m
    }

    /// Records a directory at `path`.
    pub fn add_dir(&mut self, path: Vec<u8>)
        ensures
            mem_dirs(*final(self)) == mem_dirs(*old(self)).push(path@),
            mem_files(*final(self)) == mem_files(*old(self)),
            mem_faults(*final(self)) == mem_faults(*old(self)),
            mem_reads(*final(self)) == mem_reads(*old(self)),
    {
        let ghost p = path@;
        self.dirs.push(path);
        proof {
            assert(mem_dirs(*self) =~= mem_dirs(*old(self)).push(p));
            assert(mem_files(*self) =~= mem_files(*old(self)));
        }
    }

    /// Records a file at `path` holding `data`.
    pub fn add_file(&mut self, path: Vec<u8>, data: Vec<u8>)
        ensures
            mem_files(*final(self)) == mem_files(*old(self)).push((path@, data@)),
            mem_dirs(*final(self)) == mem_dirs(*old(self)),
            mem_faults(*final(self)) == mem_faults(*old(self)),
            mem_reads(*final(self)) == mem_reads(*old(self)),
    {
        let ghost pd = (path@, data@);
        self.files.push(MemFile { path, data });
        proof {
            assert(mem_files(*self) =~= mem_files(*old(self)).push(pd));
            assert(mem_dirs(*self) =~= mem_dirs(*old(self)));
        }
    }

    /// Records a traversal fault that every walk will report.
    pub fn add_walk_fault(&mut self, kind: IoKind)
        ensures
            mem_faults(*final(self)) == mem_faults(*old(self)).push(kind),
            mem_dirs(*final(self)) == mem_dirs(*old(self)),
            mem_files(*final(self)) == mem_files(*old(self)),
            mem_reads(*final(self)) == mem_reads(*old(self)),
    {
        self.faults.push(kind);
        proof {
            assert(mem_dirs(*self) =~= mem_dirs(*old(self)));
            assert(mem_files(*self) =~= mem_files(*old(self)));
        }
    }

    /// How many file reads this tree has answered.
    pub fn read_count(&self) -> (n: u64)
        ensures
            n == mem_reads(*self),
    {
        self.reads
    }

    /// Whether `path` is a recorded directory.
    pub fn mem_is_dir(&self, path: &Vec<u8>) -> (r: bool)
        ensures
            r == mem_dirs(*self).contains(path@),
    {
        let mut i: usize = 0;
        while i < self.dirs.len()
            invariant
                i <= self.dirs.len(),
                forall|j: int| 0 <= j < i ==> mem_dirs(*self)[j] != path@,
        decreases self.dirs.len() - i,
        {
            if bytes_eq(&self.dirs[i], path) {
                assert(mem_dirs(*self)[i as int] == path@);
                return true;
            }
            i = i + 1;
        }
        assert(forall|j: int| 0 <= j < mem_dirs(*self).len() ==> mem_dirs(*self)[j] != path@);
        false
    }

    /// The listing below `root`: the recorded faults first, then the
    /// dirs and files per `mem_walk_spec`.
    pub fn mem_walk(&mut self, root: &Vec<u8>) -> (r: Vec<Result<DirEntry, IoKind>>)
        ensures
            fault_kinds(r@) == mem_faults(*old(self)),
            ok_entries(r@) == mem_walk_spec(*old(self), root@),
            *final(self) == *old(self),
    {
        let mut out: Vec<Result<DirEntry, IoKind>> = Vec::new();
        let mut f: usize = 0;
        while f < self.faults.len()
            invariant
                f <= self.faults.len(),
                fault_kinds(out@) =~= mem_faults(*self).take(f as int),
                ok_entries(out@) =~= Seq::<(Seq<u8>, bool)>::empty(),
            decreases self.faults.len() - f,
        {
            let ghost out_pre = out@;
            proof {
                assert(mem_faults(*self).take(f + 1 as int).drop_last() =~= mem_faults(
                    *self,
                ).take(f as int));
                assert(mem_faults(*self).take(f + 1 as int).last() == mem_faults(*self)[f as int]);
            }
            out.push(Err(self.faults[f]));
            proof {
                assert(out@.drop_last() =~= out_pre);
                assert(fault_kinds(out@) =~= mem_faults(*self).take(f + 1 as int));
                assert(ok_entries(out@) =~= Seq::<(Seq<u8>, bool)>::empty());
            }
            f = f + 1;
        }
        assert(mem_faults(*self).take(self.faults.len() as int) =~= mem_faults(*self));
        let mut i: usize = 0;
        while i < self.dirs.len()
            invariant
                i <= self.dirs.len(),
                fault_kinds(out@) =~= mem_faults(*self),
                ok_entries(out@) =~= walk_dirs_spec(mem_dirs(*self).take(i as int), root@),
            decreases self.dirs.len() - i,
        {
            let ghost pre = mem_dirs(*self).take(i as int);
            assert(mem_dirs(*self).take(i + 1 as int).drop_last() =~= pre);
            assert(mem_dirs(*self).take(i + 1 as int).last() == mem_dirs(*self)[i as int]);
            if under_dir(root, &self.dirs[i]) {
                let ghost out_pre = out@;
                let e = DirEntry { path: bytes_clone(&self.dirs[i]), is_file: false };
                let ghost ev = entry_view(e);
                out.push(Ok(e));
                proof {
                    assert(out@.drop_last() =~= out_pre);
                    assert(ok_entries(out@) =~= ok_entries(out_pre).push(ev));
                    assert(fault_kinds(out@) =~= fault_kinds(out_pre));
                }
            }
            assert(ok_entries(out@) =~= walk_dirs_spec(mem_dirs(*self).take(i + 1 as int), root@));
            i = i + 1;
        }
        assert(mem_dirs(*self).take(self.dirs.len() as int) =~= mem_dirs(*self));
        let ghost dpart = walk_dirs_spec(mem_dirs(*self), root@);
        let mut j: usize = 0;
        while j < self.files.len()
            invariant
                j <= self.files.len(),
                fault_kinds(out@) =~= mem_faults(*self),
                ok_entries(out@) =~= dpart + walk_files_spec(
                    mem_files(*self).take(j as int),
                    root@,
                ),
            decreases self.files.len() - j,
        {
            let ghost pre = mem_files(*self).take(j as int);
            assert(mem_files(*self).take(j + 1 as int).drop_last() =~= pre);
            assert(mem_files(*self).take(j + 1 as int).last() == mem_files(*self)[j as int]);
            if under_dir(root, &self.files[j].path) || bytes_eq(&self.files[j].path, root) {
                let ghost out_pre = out@;
                let e = DirEntry { path: bytes_clone(&self.files[j].path), is_file: true };
                let ghost ev = entry_view(e);
                out.push(Ok(e));
                proof {
                    assert(out@.drop_last() =~= out_pre);
                    assert(ok_entries(out@) =~= ok_entries(out_pre).push(ev));
                    assert(fault_kinds(out@) =~= fault_kinds(out_pre));
                }
            }
            assert(ok_entries(out@) =~= dpart + walk_files_spec(
                mem_files(*self).take(j + 1 as int),
                root@,
            ));
            j = j + 1;
        }
        assert(mem_files(*self).take(self.files.len() as int) =~= mem_files(*self));
        out
    }

    /// Replaces `buf` with the contents of the first file at `path`;
    /// reports `NotFound` and leaves `buf` alone when there is none.
    /// Every call is counted.
    pub fn mem_read(&mut self, path: &Vec<u8>, buf: &mut Vec<u8>) -> (r: Result<(), IoKind>)
        ensures
            mem_dirs(*final(self)) == mem_dirs(*old(self)),
            mem_files(*final(self)) == mem_files(*old(self)),
            mem_faults(*final(self)) == mem_faults(*old(self)),
            mem_reads(*final(self)) == if mem_reads(*old(self)) < u64::MAX {
                mem_reads(*old(self)) + 1
            } else {
                mem_reads(*old(self)) as int
            },
            match first_file(mem_files(*old(self)), path@) {
                Some(f) => r == Ok::<(), IoKind>(()) && final(buf)@ == f.1,
                None => r == Err::<(), IoKind>(IoKind::NotFound) && final(buf)@ == old(buf)@,
            },
    {
        if self.reads < u64::MAX {
            self.reads = self.reads + 1;
        }
        proof {
            assert(mem_dirs(*self) =~= mem_dirs(*old(self)));
            assert(mem_files(*self) =~= mem_files(*old(self)));
        }
        let mut i: usize = 0;
        while i < self.files.len()
            invariant
                i <= self.files.len(),
                forall|j: int| 0 <= j < i ==> mem_files(*self)[j].0 != path@,
                mem_files(*self) == mem_files(*old(self)),
                mem_dirs(*self) == mem_dirs(*old(self)),
                mem_faults(*self) == mem_faults(*old(self)),
                mem_reads(*self) == if mem_reads(*old(self)) < u64::MAX {
                    mem_reads(*old(self)) + 1
                } else {
                    mem_reads(*old(self)) as int
                },
                *buf == *old(buf),
            decreases self.files.len() - i,
        {
            proof {
                lemma_first_file_skip(mem_files(*self), path@, i as int);
            }
            if bytes_eq(&self.files[i].path, path) {
                assert(mem_files(*self).skip(i as int)[0] == mem_files(*self)[i as int]);
                buf.clear();
                let mut k: usize = 0;
                let n = self.files[i].data.len();
                while k < n
                    invariant
                        k <= n,
                        i < self.files.len(),
                        n == self.files[i as int].data.len(),
                        buf@ =~= self.files[i as int].data@.subrange(0, k as int),
                        mem_files(*self) == mem_files(*old(self)),
                        mem_dirs(*self) == mem_dirs(*old(self)),
                        mem_faults(*self) == mem_faults(*old(self)),
                        mem_reads(*self) == if mem_reads(*old(self)) < u64::MAX {
                            mem_reads(*old(self)) + 1
                        } else {
                            mem_reads(*old(self)) as int
                        },
                    decreases n - k,
                {
                    buf.push(self.files[i].data[k]);
                    k = k + 1;
                }
                assert(buf@ =~= self.files[i as int].data@);
                assert(mem_files(*self)[i as int].1 == self.files[i as int].data@);
                return Ok(());
            }
            i = i + 1;
        }
        proof {
            lemma_first_file_skip(mem_files(*self), path@, self.files.len() as int);
            assert(mem_files(*self).skip(self.files@.len() as int) =~= Seq::<
                (Seq<u8>, Seq<u8>),
            >::empty());
        }
        Err(IoKind::NotFound)
    }
}

impl Disk for MemDisk {
    fn is_dir(&mut self, path: &Vec<u8>) -> bool {
        self.mem_is_dir(path)
    }

    fn walk(&mut self, root: &Vec<u8>) -> Vec<Result<DirEntry, IoKind>> {
        self.mem_walk(root)
    }

    fn read_file(&mut self, path: &Vec<u8>, buf: &mut Vec<u8>) -> Result<(), IoKind> {
        self.mem_read(path, buf)
    }
}

} // verus!
