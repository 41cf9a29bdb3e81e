//! Iteration over loose references through an in-memory tree.

use refstore::disk::{DirEntry, IoKind, MemDisk};
use refstore::iter::{LooseError, SortedLoosePaths};
use refstore::reference::{LooseReference, Target};
use refstore::store::Store;

fn tree_base() -> Vec<u8> {
    b"repo".to_vec()
}

fn disk_with_two_refs() -> MemDisk {
    let mut d = MemDisk::new();
    d.add_dir(b"repo".to_vec());
    d.add_dir(b"repo/refs".to_vec());
    d.add_dir(b"repo/refs/heads".to_vec());
    d.add_dir(b"repo/refs/tags".to_vec());
    d.add_file(
        b"repo/refs/heads/main".to_vec(),
        b"aaaaaaaaaaaaaaaaaaaaaaaaaaaaaaaaaaaaaaaa\n".to_vec(),
    );
    d.add_file(b"repo/refs/tags/v1".to_vec(), b"ref: refs/heads/main\n".to_vec());
    d
}

fn collect_refs(store: &Store, disk: &mut MemDisk) -> Vec<Result<LooseReference, LooseError>> {
    let mut it = store.loose_iter(disk).expect("refs directory exists");
    let mut out = Vec::new();
    while let Some(item) = it.next(disk) {
        out.push(item);
    }
    out
}

#[test]
fn full_iteration_yields_both_refs_in_order() {
    let mut d = disk_with_two_refs();
    let store = Store::at(tree_base());
    let refs = collect_refs(&store, &mut d);
    assert_eq!(refs.len(), 2);
    let first = refs[0].as_ref().expect("heads/main decodes");
    assert_eq!(first.name, b"refs/heads/main".to_vec());
    match &first.target {
        Target::Peeled(id) => assert_eq!(id.as_bytes(), &vec![0xaau8; 20]),
        Target::Symbolic(_) => panic!("a hex file decodes to a direct id"),
    }
    let second = refs[1].as_ref().expect("tags/v1 decodes");
    assert_eq!(second.name, b"refs/tags/v1".to_vec());
    match &second.target {
        Target::Symbolic(name) => assert_eq!(name, &b"refs/heads/main".to_vec()),
        Target::Peeled(_) => panic!("a ref: line decodes to a symbolic target"),
    }
}

#[test]
fn iteration_order_ignores_creation_order() {
    let store = Store::at(tree_base());
    let mut forward = MemDisk::new();
    forward.add_dir(b"repo/refs".to_vec());
    forward.add_file(b"repo/refs/a".to_vec(), b"ref: refs/z\n".to_vec());
    forward.add_file(b"repo/refs/m".to_vec(), b"ref: refs/z\n".to_vec());
    forward.add_file(b"repo/refs/z".to_vec(), b"ref: refs/a\n".to_vec());
    let mut shuffled = MemDisk::new();
    shuffled.add_dir(b"repo/refs".to_vec());
    shuffled.add_file(b"repo/refs/z".to_vec(), b"ref: refs/a\n".to_vec());
    shuffled.add_file(b"repo/refs/a".to_vec(), b"ref: refs/z\n".to_vec());
    shuffled.add_file(b"repo/refs/m".to_vec(), b"ref: refs/z\n".to_vec());
    let names1: Vec<Vec<u8>> = collect_refs(&store, &mut forward)
        .into_iter()
        .map(|r| r.expect("all decode").name)
        .collect();
    let names2: Vec<Vec<u8>> = collect_refs(&store, &mut shuffled)
        .into_iter()
        .map(|r| r.expect("all decode").name)
        .collect();
    assert_eq!(names1, names2);
    assert_eq!(
        names1,
        vec![b"refs/a".to_vec(), b"refs/m".to_vec(), b"refs/z".to_vec()]
    );
}

#[test]
fn invalid_relative_paths_are_silently_skipped() {
    let store = Store::at(tree_base());
    let mut d = MemDisk::new();
    d.add_dir(b"repo/refs".to_vec());
    d.add_file(b"repo/refs/../escape".to_vec(), b"junk".to_vec());
    d.add_file(b"repo/refs//double".to_vec(), b"junk".to_vec());
    d.add_file(b"repo/refs/ok".to_vec(), b"ref: refs/x\n".to_vec());
    let refs = collect_refs(&store, &mut d);
    assert_eq!(refs.len(), 1);
    assert_eq!(refs[0].as_ref().expect("the one valid ref").name, b"refs/ok".to_vec());
}

#[test]
fn one_bad_file_does_not_hide_the_rest() {
    let store = Store::at(tree_base());
    let mut d = MemDisk::new();
    d.add_dir(b"repo/refs".to_vec());
    d.add_file(b"repo/refs/bad".to_vec(), b"not a reference at all".to_vec());
    d.add_file(
        b"repo/refs/good".to_vec(),
        b"bbbbbbbbbbbbbbbbbbbbbbbbbbbbbbbbbbbbbbbb\n".to_vec(),
    );
    let refs = collect_refs(&store, &mut d);
    assert_eq!(refs.len(), 2);
    match &refs[0] {
        Err(LooseError::ReferenceCreation { relative_path, .. }) => {
            assert_eq!(relative_path, &b"refs/bad".to_vec());
        }
        _ => panic!("the bad file surfaces as a per-entry decode error"),
    }
    assert_eq!(refs[1].as_ref().expect("good decodes").name, b"refs/good".to_vec());
}

#[test]
fn missing_refs_directory_is_not_found() {
    let store = Store::at(tree_base());
    let mut d = MemDisk::new();
    d.add_dir(b"repo".to_vec());
    match store.loose_iter(&mut d) {
        Err(IoKind::NotFound) => {}
        _ => panic!("a store without refs/ reports NotFound"),
    }
}

#[test]
fn absolute_prefix_is_rejected() {
    let store = Store::at(tree_base());
    let mut d = disk_with_two_refs();
    match store.loose_iter_prefixed(&mut d, &b"/refs/heads".to_vec()) {
        Err(IoKind::InvalidInput) => {}
        _ => panic!("an absolute prefix is rejected"),
    }
}

#[test]
fn dotdot_prefix_is_rejected() {
    let store = Store::at(tree_base());
    let mut d = disk_with_two_refs();
    match store.loose_iter_prefixed(&mut d, &b"refs/../heads".to_vec()) {
        Err(IoKind::InvalidInput) => {}
        _ => panic!("a prefix with a dot-dot component is rejected"),
    }
}

#[test]
fn plain_prefix_is_accepted() {
    let store = Store::at(tree_base());
    let mut d = disk_with_two_refs();
    assert!(store.loose_iter_prefixed(&mut d, &b"refs/heads".to_vec()).is_ok());
}

#[test]
fn prefixed_iteration_matches_filtered_full_iteration() {
    let store = Store::at(tree_base());
    let mut d = disk_with_two_refs();
    let all: Vec<Vec<u8>> = collect_refs(&store, &mut d)
        .into_iter()
        .map(|r| r.expect("all decode").name)
        .collect();
    let mut it = store
        .loose_iter_prefixed(&mut d, &b"refs/heads".to_vec())
        .expect("a plain prefix is accepted");
    let mut under = Vec::new();
    while let Some(item) = it.next(&mut d) {
        under.push(item.expect("all decode").name);
    }
    let expected: Vec<Vec<u8>> = all
        .into_iter()
        .filter(|n| n.starts_with(b"refs/heads/"))
        .collect();
    assert_eq!(under, expected);
    assert_eq!(under, vec![b"refs/heads/main".to_vec()]);
}

#[test]
fn refs_dir_is_base_slash_refs() {
    let store = Store::at(tree_base());
    assert_eq!(store.refs_dir(), b"repo/refs".to_vec());
}

#[test]
fn walker_with_names_yields_validated_relative_names() {
    let entries = vec![
        DirEntry { path: b"repo/refs/tags/v1".to_vec(), is_file: true },
        DirEntry { path: b"repo/refs/heads".to_vec(), is_file: false },
        DirEntry { path: b"repo/refs/heads/main".to_vec(), is_file: true },
        DirEntry { path: b"repo/refs/../escape".to_vec(), is_file: true },
    ];
    let mut w = SortedLoosePaths::at_root_with_names(entries, b"repo".to_vec());
    let mut seen = Vec::new();
    while let Some((path, name)) = w.next() {
        seen.push((path, name.expect("names are materialized")));
    }
    assert_eq!(
        seen,
        vec![
            (b"repo/refs/heads/main".to_vec(), b"refs/heads/main".to_vec()),
            (b"repo/refs/tags/v1".to_vec(), b"refs/tags/v1".to_vec()),
        ]
    );
}

#[test]
fn walker_paths_mode_omits_names() {
    let entries = vec![DirEntry { path: b"repo/refs/x".to_vec(), is_file: true }];
    let mut w = SortedLoosePaths::at_root(entries, b"repo".to_vec());
    let (path, name) = w.next().expect("one entry");
    assert_eq!(path, b"repo/refs/x".to_vec());
    assert!(name.is_none());
    assert!(w.next().is_none());
}

#[test]
fn traversal_fault_does_not_hide_references() {
    let store = Store::at(tree_base());
    let mut d = MemDisk::new();
    d.add_dir(b"repo/refs".to_vec());
    d.add_file(
        b"repo/refs/heads/main".to_vec(),
        b"aaaaaaaaaaaaaaaaaaaaaaaaaaaaaaaaaaaaaaaa\n".to_vec(),
    );
    d.add_walk_fault(IoKind::PermissionDenied);
    let refs = collect_refs(&store, &mut d);
    assert_eq!(refs.len(), 2, "the fault is one item; the reference still follows");
    match &refs[0] {
        Err(LooseError::Traversal(IoKind::PermissionDenied)) => {}
        _ => panic!("the walk fault surfaces as a traversal item"),
    }
    assert_eq!(
        refs[1].as_ref().expect("the reference decodes").name,
        b"refs/heads/main".to_vec()
    );
}

#[test]
fn two_traversal_faults_are_two_items() {
    let store = Store::at(tree_base());
    let mut d = MemDisk::new();
    d.add_dir(b"repo/refs".to_vec());
    d.add_walk_fault(IoKind::PermissionDenied);
    d.add_walk_fault(IoKind::Other);
    let refs = collect_refs(&store, &mut d);
    assert_eq!(refs.len(), 2);
    assert!(matches!(refs[0], Err(LooseError::Traversal(IoKind::PermissionDenied))));
    assert!(matches!(refs[1], Err(LooseError::Traversal(IoKind::Other))));
}
