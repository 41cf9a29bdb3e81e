//! Handle cloning, cache exclusivity, and single-reference lookup.

use refstore::disk::MemDisk;
use refstore::odb::Odb;
use refstore::reference::Target;
use refstore::store::Store;
use refstore::{Access, Kind, ReferencesExt, Repository};

fn small_repo() -> (Repository, MemDisk) {
    let mut d = MemDisk::new();
    d.add_dir(b"repo/refs".to_vec());
    d.add_file(
        b"repo/refs/heads/main".to_vec(),
        b"aaaaaaaaaaaaaaaaaaaaaaaaaaaaaaaaaaaaaaaa\n".to_vec(),
    );
    let mut packed = Vec::new();
    packed.extend_from_slice(b"bbbbbbbbbbbbbbbbbbbbbbbbbbbbbbbbbbbbbbbb refs/tags/packed\n");
    d.add_file(b"repo/packed-refs".to_vec(), packed);
    let repo = Repository { refs: Store::at(b"repo".to_vec()), odb: Odb::new(), working_tree: None };
    (repo, d)
}

#[test]
fn cloned_handle_starts_with_an_empty_cache() {
    let (repo, mut d) = small_repo();
    let mut h = repo.into_shared();
    let h2 = h.clone();
    // Populate the original's cache; the clone's stays empty.
    let store = Store::at(b"repo".to_vec());
    h.cache_mut().packed_refs(&store, &mut d).expect("the table opens");
    assert!(h.cache().packed_refs.is_some());
    assert!(h2.cache().packed_refs.is_none());
}

#[test]
fn populating_a_clone_leaves_the_original_empty() {
    let (repo, mut d) = small_repo();
    let h = repo.into_shared();
    let mut h2 = h.clone();
    let store = Store::at(b"repo".to_vec());
    h2.cache_mut().packed_refs(&store, &mut d).expect("the table opens");
    assert!(h2.cache().packed_refs.is_some());
    assert!(h.cache().packed_refs.is_none(), "caches are never shared across clones");
}

#[test]
fn arc_handle_clones_behave_the_same() {
    let (repo, mut d) = small_repo();
    let h = repo.into_shared_arc();
    let mut h2 = h.clone();
    let store = Store::at(b"repo".to_vec());
    h2.cache_mut().packed_refs(&store, &mut d).expect("the table opens");
    assert!(h2.cache().packed_refs.is_some());
    assert!(h.cache().packed_refs.is_none());
}

#[test]
fn packed_table_is_opened_once_per_cache() {
    let (repo, mut d) = small_repo();
    let mut h = repo.into_shared();
    let store = Store::at(b"repo".to_vec());
    h.cache_mut().packed_refs(&store, &mut d).expect("the table opens");
    let reads = d.read_count();
    h.cache_mut().packed_refs(&store, &mut d).expect("already loaded");
    assert_eq!(d.read_count(), reads, "a loaded table is reused without reading");
}

#[test]
fn failed_open_leaves_the_cache_empty_for_retry() {
    let mut d = MemDisk::new();
    d.add_file(b"repo/packed-refs".to_vec(), b"this is not a packed table".to_vec());
    let repo = Repository { refs: Store::at(b"repo".to_vec()), odb: Odb::new(), working_tree: None };
    let mut h = repo.into_shared();
    let store = Store::at(b"repo".to_vec());
    assert!(h.cache_mut().packed_refs(&store, &mut d).is_err());
    assert!(h.cache().packed_refs.is_none(), "a failed open does not poison the cache");
}

#[test]
fn find_reference_prefers_the_loose_file() {
    let (repo, mut d) = small_repo();
    let mut h = repo.into_shared();
    let r = h
        .find_reference(&b"refs/heads/main".to_vec(), &mut d)
        .expect("lookup works")
        .expect("the loose ref exists");
    assert_eq!(r.name(), &b"refs/heads/main".to_vec());
    match r.target() {
        Target::Peeled(id) => assert_eq!(id.as_bytes(), &vec![0xaau8; 20]),
        Target::Symbolic(_) => panic!("the loose file holds a direct id"),
    }
}

#[test]
fn find_reference_falls_back_to_the_packed_table() {
    let (repo, mut d) = small_repo();
    let mut h = repo.into_shared();
    let r = h
        .find_reference(&b"refs/tags/packed".to_vec(), &mut d)
        .expect("lookup works")
        .expect("the packed row exists");
    assert_eq!(r.name(), &b"refs/tags/packed".to_vec());
    match r.target() {
        Target::Peeled(id) => assert_eq!(id.as_bytes(), &vec![0xbbu8; 20]),
        Target::Symbolic(_) => panic!("a packed row holds a direct id"),
    }
}

#[test]
fn find_reference_rejects_illegal_names_and_misses_cleanly() {
    let (repo, mut d) = small_repo();
    let mut h = repo.into_shared();
    assert!(h.find_reference(&b"refs/../escape".to_vec(), &mut d).is_err());
    assert!(h
        .find_reference(&b"refs/heads/absent".to_vec(), &mut d)
        .expect("lookup works")
        .is_none());
}

#[test]
fn kind_knows_bareness() {
    assert!(Kind::Bare.is_bare());
    assert!(!Kind::WorkingTree.is_bare());
}
