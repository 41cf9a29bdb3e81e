//! A verified reference-resolution layer for a content-addressed store:
//! validated, deterministic iteration over loose references, a packed
//! reference table, memoized peeling down to final object ids, and
//! handle-local caches over a shared repository.

pub mod bytes;
pub mod disk;
pub mod hash;
pub mod iter;
pub mod laws;
pub mod odb;
pub mod packed;
pub mod reference;
pub mod store;
pub mod validate;
pub mod values;
pub mod worktree;

use vstd::prelude::*;

use crate::disk::Disk;
use crate::hash::ObjectId;
use crate::odb::{odb_find_spec, odb_view, Odb, ObjectKind, PackCache};
use crate::packed::{buffer_view, buffer_wf, spec_find, PackedBuffer};
use crate::reference::{DecodeError, LooseReference, Target, TargetView};
use crate::store::{FileRef, FindError, OpenError, Store};
use crate::validate::valid_name;

verus! {

/// The kind of a repository directory layout.
#[derive(Debug, Copy, Clone, Eq, PartialEq, Structural)]
pub enum Kind {
    /// A repository without a working tree.
    Bare,
    /// A repository with a working tree beside it.
    WorkingTree,
}

impl Kind {
    /// True exactly for a repository without a working tree.
    pub fn is_bare(&self) -> (r: bool)
        ensures
            r == (*self == Kind::Bare),
    {
        matches!(self, Kind::Bare)
    }
}

/// The shared, immutable heart of a repository: its reference store,
/// its object database, and the working tree's path if it has one.
pub struct Repository {
    /// The reference store.
    pub refs: Store,
    /// The object database.
    pub odb: Odb,
    /// The working tree's directory, absent for a bare repository.
    pub working_tree: Option<Vec<u8>>,
}

/// The handle-local mutable state: the lazily loaded packed table, the
/// object-lookup scratch cache, and a reusable byte buffer.
pub struct Cache {
    /// The packed table, absent until first demand.
    pub packed_refs: Option<PackedBuffer>,
    /// The scratch cache handed to object lookups.
    pub pack: PackCache,
    /// A reusable scratch buffer.
    pub buf: Vec<u8>,
}

/// A cache's packed table, when loaded, carries well-formed ids.
pub open spec fn cache_wf(c: Cache) -> bool {
    match c.packed_refs {
        Some(b) => buffer_wf(b),
        None => true,
    }
}

impl Cache {
    /// A fresh, empty cache.
    pub fn empty() -> (c: Cache)
        ensures
            c.packed_refs is None,
            c.pack.lookups == 0,
            c.buf@ == Seq::<u8>::empty(),
            cache_wf(c),
    {
        Cache { packed_refs: None, pack: PackCache::new(), buf: Vec::new() }
    }

    /// Installs the outcome of an open into the slot: the slot holds
    /// afterwards exactly what the open produced, and nothing else of
    /// the cache moves. `packed_refs` routes every store through here,
    /// so its contract chain ties the slot to the open's outcome.
    pub fn install_packed(&mut self, opened: Option<PackedBuffer>)
        ensures
            final(self).packed_refs == opened,
            final(self).pack == old(self).pack,
            final(self).buf == old(self).buf,
    {
        self.packed_refs = opened;
    }

    /// Loads the packed table on first demand: once something is
    /// loaded it is reused untouched, and the disk is not consulted
    /// again; a failed open leaves the slot empty, so a later call may
    /// try again. On a first demand the slot afterwards holds exactly
    /// what `Store::packed` produced, installed through
    /// `install_packed`; that open's outcome depends on the disk, so it
    /// cannot be named here, but `Store::packed` pins the parsed table
    /// to the bytes that were read.
    pub fn packed_refs<F: Disk>(&mut self, store: &Store, fs: &mut F) -> (r: Result<(), OpenError>)
        ensures
            cache_wf(*old(self)) ==> cache_wf(*final(self)),
            final(self).pack == old(self).pack,
            final(self).buf == old(self).buf,
            old(self).packed_refs is Some ==> r is Ok && *final(self) == *old(self) && *final(fs)
                == *old(fs),
            r is Err ==> final(self).packed_refs is None,
            r is Ok && old(self).packed_refs is None ==> match final(self).packed_refs {
                Some(b) => buffer_wf(b),
                None => true,
            },
    {
        if self.packed_refs.is_some() {
            return Ok(());
        }
        match store.packed(fs) {
            Ok(opt) => {
                self.install_packed(opt);
                Ok(())
            },
            Err(e) => {
                self.install_packed(None);
                Err(e)
            },
        }
    }
}

impl Default for Cache {
    /// The same fresh, empty cache.
    fn default() -> (c: Cache)
        ensures
            c.packed_refs is None,
            c.pack.lookups == 0,
            c.buf@ == Seq::<u8>::empty(),
    {
        Cache::empty()
    }
}

/// Relies on `Rc::clone`: the clone holds the same repository value.
#[verifier::external_body]
fn rc_clone(r: &std::rc::Rc<Repository>) -> (res: std::rc::Rc<Repository>)
    ensures
        *res == **r,
{
    std::rc::Rc::clone(r)
}

/// Relies on `Arc::clone`: the clone holds the same repository value.
#[verifier::external_body]
fn arc_clone(r: &std::sync::Arc<Repository>) -> (res: std::sync::Arc<Repository>)
    ensures
        *res == **r,
{
    std::sync::Arc::clone(r)
}

/// The capability surface a reference needs from its handle: shared
/// access to the repository, and exclusive access to the handle's own
/// cache. `swap_cache` lets a caller hold the cache and the repository
/// at the same time.
pub trait Access: Sized {
    /// The repository this handle shares.
    spec fn repo_spec(&self) -> Repository;

    /// The handle's own cache.
    spec fn cache_spec(&self) -> Cache;

    /// Shared, read-only access to the repository.
    fn repo(&self) -> (r: &Repository)
        ensures
            *r == self.repo_spec(),
    ;

    /// Read access to the handle's cache.
    fn cache(&self) -> (c: &Cache)
        ensures
            *c == self.cache_spec(),
    ;

    /// Exclusive access to the handle's cache.
    fn cache_mut(&mut self) -> (c: &mut Cache)
        ensures
            *c == old(self).cache_spec(),
            final(self).cache_spec() == *final(c),
            final(self).repo_spec() == old(self).repo_spec(),
    ;

    /// Exchanges the handle's cache with `c`.
    fn swap_cache(&mut self, c: &mut Cache)
        ensures
            final(self).cache_spec() == *old(c),
            *final(c) == old(self).cache_spec(),
            final(self).repo_spec() == old(self).repo_spec(),
    ;
}

/// A handle for one logical thread of control: the repository shared
/// through a non-atomic counted pointer, the cache exclusively owned.
pub struct Shared {
    repo: std::rc::Rc<Repository>,
    cache: Cache,
}

/// A handle whose repository pointer may cross threads; the cache is
/// still exclusively owned.
pub struct SharedArc {
    repo: std::sync::Arc<Repository>,
    cache: Cache,
}

impl Access for Shared {
    closed spec fn repo_spec(&self) -> Repository {
        *self.repo
    }

    closed spec fn cache_spec(&self) -> Cache {
        self.cache
    }

    fn repo(&self) -> (r: &Repository) {
        &self.repo
    }

    fn cache(&self) -> (c: &Cache) {
        &self.cache
    }

    fn cache_mut(&mut self) -> (c: &mut Cache) {
        &mut self.cache
    }

    fn swap_cache(&mut self, c: &mut Cache) {
        core::mem::swap(&mut self.cache, c);
    }
}

impl Access for SharedArc {
    closed spec fn repo_spec(&self) -> Repository {
        *self.repo
    }

    closed spec fn cache_spec(&self) -> Cache {
        self.cache
    }

    fn repo(&self) -> (r: &Repository) {
        &self.repo
    }

    fn cache(&self) -> (c: &Cache) {
        &self.cache
    }

    fn cache_mut(&mut self) -> (c: &mut Cache) {
        &mut self.cache
    }

    fn swap_cache(&mut self, c: &mut Cache) {
        core::mem::swap(&mut self.cache, c);
    }
}

impl Clone for Shared {
    /// Cloning shares the repository and hands the clone a brand-new,
    /// empty cache; the original handle's cache is untouched.
    fn clone(&self) -> (res: Self)
        ensures
            res.repo_spec() == self.repo_spec(),
            res.cache_spec().packed_refs is None,
            res.cache_spec().pack.lookups == 0,
            res.cache_spec().buf@ == Seq::<u8>::empty(),
    {
        Shared { repo: rc_clone(&self.repo), cache: Cache::empty() }
    }
}

impl Clone for SharedArc {
    /// Cloning shares the repository and hands the clone a brand-new,
    /// empty cache; the original handle's cache is untouched.
    fn clone(&self) -> (res: Self)
        ensures
            res.repo_spec() == self.repo_spec(),
            res.cache_spec().packed_refs is None,
            res.cache_spec().pack.lookups == 0,
            res.cache_spec().buf@ == Seq::<u8>::empty(),
    {
        SharedArc { repo: arc_clone(&self.repo), cache: Cache::empty() }
    }
}

impl Repository {
    /// Wraps the repository in a single-thread handle with an empty cache.
    pub fn into_shared(self) -> (h: Shared)
        ensures
            h.repo_spec() == self,
            h.cache_spec().packed_refs is None,
            h.cache_spec().pack.lookups == 0,
            h.cache_spec().buf@ == Seq::<u8>::empty(),
    {
        Shared { repo: std::rc::Rc::new(self), cache: Cache::empty() }
    }

    /// Wraps the repository in a thread-crossing handle with an empty cache.
    pub fn into_shared_arc(self) -> (h: SharedArc)
        ensures
            h.repo_spec() == self,
            h.cache_spec().packed_refs is None,
            h.cache_spec().pack.lookups == 0,
            h.cache_spec().buf@ == Seq::<u8>::empty(),
    {
        SharedArc { repo: std::sync::Arc::new(self), cache: Cache::empty() }
    }
}

/// A resolved object: its id in the database.
pub struct Object {
    id: ObjectId,
}

/// The id of `o`, as bytes.
pub closed spec fn object_id_view(o: Object) -> Seq<u8> {
    o.id@
}

impl Object {
    /// Wraps an id; infallible, the `Result` mirrors richer lookups.
    pub fn try_from_oid(oid: ObjectId) -> (r: Result<Object, ()>)
        ensures
            match r {
                Ok(o) => object_id_view(o) == oid@,
                Err(_) => false,
            },
    {
        Ok(Object { id: oid })
    }

    /// The object's id.
    pub fn id(&self) -> (r: &ObjectId)
        ensures
            r@ == object_id_view(*self),
    {
        &self.id
    }
}

impl PartialEq for Object {
    /// Objects are equal exactly when their ids are: identity is the
    /// pointed-to content, not the representation.
    fn eq(&self, other: &Self) -> (r: bool) {
        crate::bytes::bytes_eq(self.id.as_bytes(), other.id.as_bytes())
    }
}

impl vstd::std_specs::cmp::PartialEqSpecImpl for Object {
    open spec fn obeys_eq_spec() -> bool {
        true
    }

    open spec fn eq_spec(&self, other: &Self) -> bool {
        object_id_view(*self) == object_id_view(*other)
    }
}

impl Eq for Object {

}

/// How a reference is backed: an owned copy of a packed-table row, or a
/// live loose file.
pub enum Backing {
    /// A packed row: validated name, target id, and the optional
    /// precomputed fully peeled id.
    OwnedPacked {
        /// The validated full name of the reference.
        name: Vec<u8>,
        /// The target object id of the reference.
        target: ObjectId,
        /// The fully peeled object id the reference ultimately points
        /// to, when the packed table carried it.
        object: Option<ObjectId>,
    },
    /// A decoded loose reference, mutated in place during peeling.
    LooseFile(LooseReference),
}

/// A reference handed to a caller, whatever its backing.
pub struct Reference {
    backing: Backing,
}

/// The backing of `r`.
pub closed spec fn ref_backing(r: Reference) -> Backing {
    r.backing
}

/// The name of `r`.
pub open spec fn ref_name(r: Reference) -> Seq<u8> {
    match ref_backing(r) {
        Backing::OwnedPacked { name, .. } => name@,
        Backing::LooseFile(lr) => lr.name@,
    }
}

/// Why a peel failed without touching the reference's state.
#[derive(Debug)]
pub enum PeelError {
    /// The loose-side resolution failed.
    LoosePeelToId(LoosePeelError),
    /// The packed table could not be opened.
    PackedRefsOpen(OpenError),
}

/// The ways loose-side resolution can fail.
#[derive(Debug)]
pub enum LoosePeelError {
    /// A symbolic target names a reference that exists nowhere.
    RefNotFound,
    /// An intermediate loose file did not decode.
    Decode(DecodeError),
    /// An intermediate loose file could not be read.
    Read(crate::disk::IoKind),
    /// The symbolic chain was longer than the hop limit.
    HopLimit,
    /// The target object is not in the database.
    ObjectMissing,
    /// A tag object did not name its target.
    BadTag,
}

/// How many symbolic hops a peel will follow.
pub const MAX_SYMBOLIC_HOPS: usize = 5;

/// How many nested tag objects a peel will unwrap.
pub const MAX_TAG_DEPTH: usize = 16;

impl Reference {
    /// Wraps a found reference.
    pub fn from_ref(reference: FileRef) -> (r: Reference)
        ensures
            match reference {
                FileRef::Loose(lr) => ref_backing(r) == Backing::LooseFile(lr),
                FileRef::Packed(n, t, p) => ref_backing(r) == (Backing::OwnedPacked {
                    name: n,
                    target: t,
                    object: p,
                }),
            },
    {
        Reference {
            backing: match reference {
                FileRef::Loose(lr) => Backing::LooseFile(lr),
                FileRef::Packed(n, t, p) => Backing::OwnedPacked { name: n, target: t, object: p },
            },
        }
    }

    /// The reference's validated name, borrowed.
    pub fn name(&self) -> (r: &Vec<u8>)
        ensures
            r@ == ref_name(*self),
    {
        match &self.backing {
            Backing::OwnedPacked { name, .. } => name,
            Backing::LooseFile(lr) => &lr.name,
        }
    }

    /// The reference's current target: for a packed backing the stored
    /// id, for a loose backing the live decoded target.
    pub fn target(&self) -> (r: Target)
        ensures
            match ref_backing(*self) {
                Backing::OwnedPacked { target, .. } => r@ == TargetView::Id(target@),
                Backing::LooseFile(lr) => r@ == lr.target@,
            },
    {
        match &self.backing {
            Backing::OwnedPacked { target, .. } => Target::Peeled(target.duplicate()),
            Backing::LooseFile(lr) => lr.target.duplicate(),
        }
    }

    /// Resolves the reference to a final object id, memoizing the
    /// result in place.
    ///
    /// A packed backing never consults the object database or the disk:
    /// a precomputed peeled id is adopted as the target, an absent one
    /// means the stored target is already final. A loose backing whose
    /// peel slot is filled returns it with no lookups, no reads, and no
    /// change anywhere; otherwise the chain is resolved through the
    /// handle's cache and the repository, and on failure the
    /// reference's pre-peel state is left intact.
    pub fn peel_to_object_in_place<A: Access, F: Disk>(
        &mut self,
        access: &mut A,
        fs: &mut F,
    ) -> (r: Result<Object, PeelError>)
        ensures
            ref_name(*final(self)) == ref_name(*old(self)),
            match ref_backing(*old(self)) {
                Backing::OwnedPacked { name, target, object } => {
                    &&& *final(fs) == *old(fs)
                    &&& *final(access) == *old(access)
                    &&& match object {
                        Some(p) => r matches Ok(o) && object_id_view(o) == p@ && (ref_backing(
                            *final(self),
                        ) matches Backing::OwnedPacked { name: n2, target: t2, object: o2 } && (n2@
                            == name@ && t2@ == p@ && o2 is None)),
                        None => r matches Ok(o) && object_id_view(o) == target@ && ref_backing(
                            *final(self),
                        ) == ref_backing(*old(self)),
                    }
                },
                Backing::LooseFile(lr) => match lr.peeled {
                    Some(id) => {
                        &&& *final(fs) == *old(fs)
                        &&& *final(access) == *old(access)
                        &&& *final(self) == *old(self)
                        &&& r matches Ok(o) && object_id_view(o) == id@
                    },
                    None => {
                        &&& final(access).repo_spec() == old(access).repo_spec()
                        &&& (old(access).cache_spec().packed_refs is Some
                            ==> final(access).cache_spec().packed_refs == old(
                            access,
                        ).cache_spec().packed_refs)
                        &&& match r {
                            Ok(o) => ref_backing(*final(self)) matches Backing::LooseFile(lr2) && (
                            lr2.name@ == lr.name@ && (lr2.peeled matches Some(p) && p@
                                == object_id_view(o)) && lr2.target@ == TargetView::Id(
                                object_id_view(o),
                            )),
                            Err(_) => *final(self) == *old(self),
                        }
                        // On success the returned id names a non-tag
                        // object of the database.
                        &&& (r matches Ok(o) ==> (match odb_find_spec(
                            odb_view(old(access).repo_spec().odb),
                            object_id_view(o),
                        ) {
                            Some(found) => found.0 != ObjectKind::Tag,
                            None => false,
                        }))
                        // Success is owed where nothing outside decides:
                        // a direct target, the packed table already
                        // loaded, and the database holding a non-tag
                        // object under it peel without touching the disk
                        // for reads that could fail.
                        &&& (match lr.target@ {
                            TargetView::Id(t) => (old(access).cache_spec().packed_refs is Some
                                && (match odb_find_spec(
                                odb_view(old(access).repo_spec().odb),
                                t,
                            ) {
                                Some(found) => found.0 != ObjectKind::Tag,
                                None => false,
                            })) ==> (r matches Ok(o) && object_id_view(o) == t),
                            TargetView::Name(_) => true,
                        })
                        &&& cache_wf(old(access).cache_spec()) ==> cache_wf(
                            final(access).cache_spec(),
                        )
                    },
                },
            },
    {
        match &mut self.backing {
            Backing::OwnedPacked { target, object, .. } => {
                let adopted = match object {
                    Some(p) => Some(p.duplicate()),
                    None => None,
                };
                if let Some(p) = adopted {
                    *target = p;
                    *object = None;
                }
                match Object::try_from_oid(target.duplicate()) {
                    Ok(o) => Ok(o),
                    Err(_) => Err(PeelError::LoosePeelToId(LoosePeelError::RefNotFound)),
                }
            },
            Backing::LooseFile(lr) => {
                let memoized = match &lr.peeled {
                    Some(id) => Some(id.duplicate()),
                    None => None,
                };
                if let Some(id) = memoized {
                    return match Object::try_from_oid(id) {
                        Ok(o) => Ok(o),
                        Err(_) => Err(PeelError::LoosePeelToId(LoosePeelError::RefNotFound)),
                    };
                }
                let store = access.repo().refs.duplicate();
                let mut cache = Cache::empty();
                access.swap_cache(&mut cache);
                if let Err(e) = cache.packed_refs(&store, fs) {
                    access.swap_cache(&mut cache);
                    return Err(PeelError::PackedRefsOpen(e));
                }
                let outcome = peel_loose(lr, &store, access.repo(), &mut cache, fs);
                access.swap_cache(&mut cache);
                match outcome {
                    Ok(oid) => {
                        lr.peeled = Some(oid.duplicate());
                        lr.target = Target::Peeled(oid.duplicate());
                        match Object::try_from_oid(oid) {
                            Ok(o) => Ok(o),
                            Err(_) => Err(PeelError::LoosePeelToId(LoosePeelError::RefNotFound)),
                        }
                    },
                    Err(e) => Err(PeelError::LoosePeelToId(e)),
                }
            },
        }
    }
}

/// Resolves a loose reference's target to a final object id: follows
/// the symbolic chain through loose files and the packed table, then
/// unwraps tag objects through the object database. Leaves `lr`
/// untouched; the caller memoizes on success.
fn peel_loose<F: Disk>(
    lr: &LooseReference,
    store: &Store,
    repo: &Repository,
    cache: &mut Cache,
    fs: &mut F,
) -> (r: Result<ObjectId, LoosePeelError>)
    ensures
        final(cache).packed_refs == old(cache).packed_refs,
        cache_wf(*old(cache)) ==> cache_wf(*final(cache)),
        match r {
            Ok(id) => match odb_find_spec(odb_view(repo.odb), id@) {
                Some(found) => found.0 != ObjectKind::Tag,
                None => false,
            },
            Err(_) => true,
        },
        match lr.target@ {
            TargetView::Id(t) => match odb_find_spec(odb_view(repo.odb), t) {
                Some(found) => found.0 != ObjectKind::Tag ==> (r matches Ok(id) && id@ == t),
                None => true,
            },
            TargetView::Name(_) => true,
        },
{
    // Follow the symbolic chain to a direct id.
    let first = match resolve_symbolic(lr.target.duplicate(), store, cache, fs) {
        Ok(id) => id,
        Err(e) => {
            return Err(e);
        },
    };
    // Unwrap tag objects down to the object they name.
    let mut oid = first;
    let mut depth: usize = 0;
    loop
        invariant
            cache.packed_refs == old(cache).packed_refs,
            cache_wf(*old(cache)) ==> cache_wf(*cache),
            depth <= MAX_TAG_DEPTH,
            match lr.target@ {
                TargetView::Id(t) => match odb_find_spec(odb_view(repo.odb), t) {
                    Some(found) => found.0 != ObjectKind::Tag ==> oid@ == t,
                    None => true,
                },
                TargetView::Name(_) => true,
            },
        decreases MAX_TAG_DEPTH - depth,
    {
        match repo.odb.find(&oid, &mut cache.buf, &mut cache.pack) {
            None => {
                return Err(LoosePeelError::ObjectMissing);
            },
            Some(ObjectKind::Tag) => {
                if depth == MAX_TAG_DEPTH {
                    return Err(LoosePeelError::HopLimit);
                }
                depth = depth + 1;
                match crate::odb::tag_target(&cache.buf) {
                    Some(next) => {
                        oid = next;
                    },
                    None => {
                        return Err(LoosePeelError::BadTag);
                    },
                }
            },
            Some(_) => {
                return Ok(oid);
            },
        }
    }
}

/// Follows a symbolic chain to a direct id: each hop reads the named
/// loose file, falling back to the packed table when the file does not
/// exist; a missing reference, a decode failure, or a chain longer than
/// the hop limit ends the resolution.
fn resolve_symbolic<F: Disk>(
    start: Target,
    store: &Store,
    cache: &mut Cache,
    fs: &mut F,
) -> (r: Result<ObjectId, LoosePeelError>)
    ensures
        final(cache).packed_refs == old(cache).packed_refs,
        cache_wf(*old(cache)) ==> cache_wf(*final(cache)),
        match start@ {
            TargetView::Id(t) => (r matches Ok(id) && id@ == t) && *final(cache) == *old(cache)
                && *final(fs) == *old(fs),
            TargetView::Name(_) => true,
        },
{
    let mut current: Target = start;
    let mut hops: usize = 0;
    loop
        invariant
            cache.packed_refs == old(cache).packed_refs,
            cache_wf(*old(cache)) ==> cache_wf(*cache),
            hops <= MAX_SYMBOLIC_HOPS,
            start@ is Id ==> *cache == *old(cache) && *fs == *old(fs) && current@ == start@,
        decreases MAX_SYMBOLIC_HOPS - hops,
    {
        match current {
            Target::Peeled(id) => {
                return Ok(id);
            },
            Target::Symbolic(name) => {
                if hops == MAX_SYMBOLIC_HOPS {
                    return Err(LoosePeelError::HopLimit);
                }
                hops = hops + 1;
                let path = crate::bytes::join_path(&store.base, &name);
                match fs.read_file(&path, &mut cache.buf) {
                    Ok(()) => {
                        match crate::reference::decode(&cache.buf, name) {
                            Ok(next) => {
                                current = next.target;
                            },
                            Err(e) => {
                                return Err(LoosePeelError::Decode(e));
                            },
                        }
                    },
                    Err(crate::disk::IoKind::NotFound) => {
                        match &cache.packed_refs {
                            Some(b) => match b.find(&name) {
                                Some(e) => {
                                    current = Target::Peeled(
                                        match &e.peeled {
                                            Some(p) => p.duplicate(),
                                            None => e.target.duplicate(),
                                        },
                                    );
                                },
                                None => {
                                    return Err(LoosePeelError::RefNotFound);
                                },
                            },
                            None => {
                                return Err(LoosePeelError::RefNotFound);
                            },
                        }
                    },
                    Err(k) => {
                        return Err(LoosePeelError::Read(k));
                    },
                }
            },
        }
    }
}

/// Why a single-reference lookup through a handle failed.
#[derive(Debug)]
pub enum FindReferenceError {
    /// The store-side lookup failed.
    Find(FindError),
    /// The packed table could not be opened.
    PackedRefsOpen(OpenError),
}

/// Obtain references comfortably through any handle.
pub trait ReferencesExt: Access + Sized {
    /// Finds the reference named `name`, loading the packed table into
    /// the handle's cache on first demand. Returns `Ok(None)` when no
    /// reference of that name exists, and rejects a syntactically
    /// illegal name before any disk access: an illegal name can only
    /// come back as `InvalidName`, or as `PackedRefsOpen` when loading
    /// the table failed before the name was looked at.
    fn find_reference<F: Disk>(&mut self, name: &Vec<u8>, fs: &mut F) -> (r: Result<
        Option<Reference>,
        FindReferenceError,
    >)
        ensures
            final(self).repo_spec() == old(self).repo_spec(),
            old(self).cache_spec().packed_refs is Some ==> final(self).cache_spec().packed_refs
                == old(self).cache_spec().packed_refs,
            r matches Ok(_) ==> valid_name(name@),
            !valid_name(name@) ==> (r matches Err(e) && (e matches FindReferenceError::Find(
                FindError::InvalidName,
            ) || e matches FindReferenceError::PackedRefsOpen(_))),
            match r {
                Ok(Some(reference)) => ref_name(reference) == name@ && (match ref_backing(
                    reference,
                ) {
                    Backing::LooseFile(lr) => lr.name@ == name@ && lr.peeled is None && lr.wf(),
                    Backing::OwnedPacked { .. } => true,
                }),
                Ok(None) => true,
                Err(FindReferenceError::Find(FindError::InvalidName)) => !valid_name(name@),
                Err(_) => true,
            },
            // With the table already loaded, its rows decide the packed
            // side of the lookup exactly.
            match old(self).cache_spec().packed_refs {
                Some(b) => match r {
                    Ok(None) => spec_find(buffer_view(b), name@) is None,
                    Ok(Some(reference)) => match ref_backing(reference) {
                        Backing::OwnedPacked { name: n2, target: t2, object: o2 } => spec_find(
                            buffer_view(b),
                            name@,
                        ) == Some(
                            (n2@, t2@, match o2 {
                                Some(p) => Some(p@),
                                None => None,
                            }),
                        ),
                        Backing::LooseFile(_) => true,
                    },
                    Err(_) => true,
                },
                None => true,
            },
    ;
}

impl<A: Access> ReferencesExt for A {
    fn find_reference<F: Disk>(&mut self, name: &Vec<u8>, fs: &mut F) -> (r: Result<
        Option<Reference>,
        FindReferenceError,
    >) {
        let store = self.repo().refs.duplicate();
        let mut cache = Cache::empty();
        self.swap_cache(&mut cache);
        if let Err(e) = cache.packed_refs(&store, fs) {
            self.swap_cache(&mut cache);
            return Err(FindReferenceError::PackedRefsOpen(e));
        }
        let found = store.find(name, cache.packed_refs.as_ref(), fs);
        self.swap_cache(&mut cache);
        match found {
            Ok(Some(fr)) => {
                let reference = Reference::from_ref(fr);
                Ok(Some(reference))
            },
            Ok(None) => Ok(None),
            Err(e) => Err(FindReferenceError::Find(e)),
        }
    }
}

} // verus!
