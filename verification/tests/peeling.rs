//! Peeling references to final object ids, and the laziness of the
//! caches involved.

use refstore::disk::MemDisk;
use refstore::hash::ObjectId;
use refstore::odb::{Odb, ObjectKind};
use refstore::reference::Target;
use refstore::store::{FileRef, Store};
use refstore::{Access, Reference, Repository};

fn id_of(hex: &[u8]) -> ObjectId {
    ObjectId::from_hex(&hex.to_vec()).expect("forty hex digits")
}

fn repo_at(base: &[u8], odb: Odb) -> Repository {
    Repository { refs: Store::at(base.to_vec()), odb, working_tree: None }
}

const A40: &[u8] = b"aaaaaaaaaaaaaaaaaaaaaaaaaaaaaaaaaaaaaaaa";
const B40: &[u8] = b"bbbbbbbbbbbbbbbbbbbbbbbbbbbbbbbbbbbbbbbb";
const C40: &[u8] = b"cccccccccccccccccccccccccccccccccccccccc";

#[test]
fn packed_ref_with_peeled_id_never_touches_the_odb() {
    let mut d = MemDisk::new();
    let repo = repo_at(b"repo", Odb::new());
    let mut h = repo.into_shared();
    let mut r = Reference::from_ref(FileRef::Packed(
        b"refs/tags/v1".to_vec(),
        id_of(A40),
        Some(id_of(B40)),
    ));
    let o = r.peel_to_object_in_place(&mut h, &mut d).expect("the peeled id is adopted");
    assert_eq!(o.id().as_bytes(), &vec![0xbbu8; 20]);
    assert_eq!(h.cache().pack.lookups, 0, "no object lookup was made");
    assert_eq!(d.read_count(), 0, "no file was read");
    // A second peel returns the adopted target, still touching nothing.
    let o2 = r.peel_to_object_in_place(&mut h, &mut d).expect("already final");
    assert_eq!(o2.id().as_bytes(), &vec![0xbbu8; 20]);
    assert_eq!(h.cache().pack.lookups, 0);
    assert_eq!(d.read_count(), 0);
}

#[test]
fn packed_ref_without_peeled_id_is_already_final() {
    let mut d = MemDisk::new();
    let repo = repo_at(b"repo", Odb::new());
    let mut h = repo.into_shared();
    let mut r = Reference::from_ref(FileRef::Packed(b"refs/heads/main".to_vec(), id_of(A40), None));
    let o = r.peel_to_object_in_place(&mut h, &mut d).expect("the target is final");
    assert_eq!(o.id().as_bytes(), &vec![0xaau8; 20]);
    assert_eq!(h.cache().pack.lookups, 0);
}

#[test]
fn loose_peel_unwraps_tags_and_memoizes() {
    let mut d = MemDisk::new();
    d.add_dir(b"repo/refs".to_vec());
    d.add_file(b"repo/refs/tags/v1".to_vec(), {
        let mut c = A40.to_vec();
        c.push(b'\n');
        c
    });
    let mut odb = Odb::new();
    let mut tag_data = b"object ".to_vec();
    tag_data.extend_from_slice(B40);
    tag_data.push(b'\n');
    tag_data.extend_from_slice(b"type commit\n");
    odb.insert(id_of(A40), ObjectKind::Tag, tag_data);
    odb.insert(id_of(B40), ObjectKind::Commit, b"tree ...\n".to_vec());
    let repo = repo_at(b"repo", odb);
    let mut h = repo.into_shared();

    let store = Store::at(b"repo".to_vec());
    let mut it = store.loose_iter(&mut d).expect("refs exists");
    let lr = it.next(&mut d).expect("one ref").expect("it decodes");
    let mut r = Reference::from_ref(FileRef::Loose(lr));

    let reads_before = d.read_count();
    let o = r.peel_to_object_in_place(&mut h, &mut d).expect("tag unwraps to the commit");
    assert_eq!(o.id().as_bytes(), &vec![0xbbu8; 20]);
    let lookups_after_first = h.cache().pack.lookups;
    assert_eq!(lookups_after_first, 2, "one lookup for the tag, one for the commit");
    let reads_after_first = d.read_count();
    assert!(reads_after_first > reads_before, "the packed table was probed once");

    // The second peel is answered from the memo: same id, zero lookups,
    // zero reads.
    let o2 = r.peel_to_object_in_place(&mut h, &mut d).expect("memoized");
    assert_eq!(o2.id().as_bytes(), &vec![0xbbu8; 20]);
    assert_eq!(h.cache().pack.lookups, lookups_after_first);
    assert_eq!(d.read_count(), reads_after_first);
    assert!(o == o2, "both peels name the same object");
}

#[test]
fn loose_peel_follows_symbolic_chain() {
    let mut d = MemDisk::new();
    d.add_dir(b"repo/refs".to_vec());
    d.add_file(b"repo/refs/heads/main".to_vec(), {
        let mut c = C40.to_vec();
        c.push(b'\n');
        c
    });
    let mut odb = Odb::new();
    odb.insert(id_of(C40), ObjectKind::Commit, b"tree ...\n".to_vec());
    let repo = repo_at(b"repo", odb);
    let mut h = repo.into_shared();

    let store = Store::at(b"repo".to_vec());
    let lr = refstore::reference::decode(
        &b"ref: refs/heads/main\n".to_vec(),
        b"refs/tags/alias".to_vec(),
    )
    .expect("a symbolic line decodes");
    let mut r = Reference::from_ref(FileRef::Loose(lr));
    assert_eq!(store.base, b"repo".to_vec());
    let o = r.peel_to_object_in_place(&mut h, &mut d).expect("the chain resolves");
    assert_eq!(o.id().as_bytes(), &vec![0xccu8; 20]);
    match r.target() {
        Target::Peeled(id) => assert_eq!(id.as_bytes(), &vec![0xccu8; 20]),
        Target::Symbolic(_) => panic!("peeling replaces the target with the final id"),
    }
}

#[test]
fn failed_peel_leaves_the_reference_intact() {
    let mut d = MemDisk::new();
    d.add_dir(b"repo/refs".to_vec());
    let repo = repo_at(b"repo", Odb::new());
    let mut h = repo.into_shared();
    let lr = refstore::reference::decode(
        &b"ref: refs/heads/nowhere\n".to_vec(),
        b"refs/tags/dangling".to_vec(),
    )
    .expect("a symbolic line decodes");
    let mut r = Reference::from_ref(FileRef::Loose(lr));
    assert!(r.peel_to_object_in_place(&mut h, &mut d).is_err());
    match r.target() {
        Target::Symbolic(name) => assert_eq!(name, b"refs/heads/nowhere".to_vec()),
        Target::Peeled(_) => panic!("a failed peel leaves the pre-peel target"),
    }
}

#[test]
fn symbolic_target_falls_back_to_packed_table() {
    let mut d = MemDisk::new();
    d.add_dir(b"repo/refs".to_vec());
    let mut packed = Vec::new();
    packed.extend_from_slice(b"# pack-refs with: peeled fully-peeled sorted \n");
    packed.extend_from_slice(A40);
    packed.extend_from_slice(b" refs/heads/main\n^");
    packed.extend_from_slice(B40);
    packed.push(b'\n');
    d.add_file(b"repo/packed-refs".to_vec(), packed);
    let mut odb = Odb::new();
    odb.insert(id_of(B40), ObjectKind::Commit, b"tree ...\n".to_vec());
    let repo = repo_at(b"repo", odb);
    let mut h = repo.into_shared();
    let lr = refstore::reference::decode(
        &b"ref: refs/heads/main\n".to_vec(),
        b"refs/tags/alias".to_vec(),
    )
    .expect("a symbolic line decodes");
    let mut r = Reference::from_ref(FileRef::Loose(lr));
    let o = r.peel_to_object_in_place(&mut h, &mut d).expect("resolved through the table");
    // The packed row's precomputed peeled id is adopted directly.
    assert_eq!(o.id().as_bytes(), &vec![0xbbu8; 20]);
    assert!(h.cache().packed_refs.is_some(), "the table stays cached on the handle");
}
