//! Byte-level decoding: names, hex ids, loose files, the packed table,
//! tag objects, and the worktree decision helpers.

use refstore::hash::ObjectId;
use refstore::odb::tag_target;
use refstore::packed::PackedBuffer;
use refstore::reference::{decode, Target};
use refstore::validate::name_partial_valid;
use refstore::values::{Boolean, Integer, Path as ValuePath, Suffix, TrueVariant};
use refstore::worktree::{checkout_action, CheckoutAction, Context, EntryStat, Mode, Options, Stat};

#[test]
fn name_grammar_accepts_and_rejects() {
    assert!(name_partial_valid(&b"refs/heads/main".to_vec()));
    assert!(name_partial_valid(&b"a".to_vec()));
    assert!(name_partial_valid(&b"a..b".to_vec()));
    assert!(!name_partial_valid(&b"".to_vec()));
    assert!(!name_partial_valid(&b"/abs".to_vec()));
    assert!(!name_partial_valid(&b"trailing/".to_vec()));
    assert!(!name_partial_valid(&b"a//b".to_vec()));
    assert!(!name_partial_valid(&b"a/./b".to_vec()));
    assert!(!name_partial_valid(&b"a/../b".to_vec()));
    assert!(!name_partial_valid(&b"..".to_vec()));
    assert!(!name_partial_valid(&b"a/.".to_vec()));
    assert!(!name_partial_valid(&b"ctl\x01char".to_vec()));
}

#[test]
fn hex_decoding_is_exact() {
    let id = ObjectId::from_hex(&b"000102030405060708090a0b0c0d0e0f10FFfe1d".to_vec())
        .expect("forty hex digits");
    assert_eq!(
        id.as_bytes(),
        &vec![0, 1, 2, 3, 4, 5, 6, 7, 8, 9, 10, 11, 12, 13, 14, 15, 16, 0xff, 0xfe, 0x1d]
    );
}

#[test]
fn hex_decoding_rejects_bad_input() {
    assert!(ObjectId::from_hex(&b"abc".to_vec()).is_none());
    assert!(ObjectId::from_hex(&b"zzzzzzzzzzzzzzzzzzzzzzzzzzzzzzzzzzzzzzzz".to_vec()).is_none());
    assert!(ObjectId::from_hex(&vec![b'a'; 41]).is_none());
}

#[test]
fn ids_can_be_built_from_raw_bytes() {
    let id = ObjectId::from_bytes(vec![7u8; 20]).expect("twenty bytes fit");
    assert_eq!(id.as_bytes(), &vec![7u8; 20]);
    assert!(ObjectId::from_bytes(vec![7u8; 19]).is_none());
}

#[test]
fn loose_decode_reads_hex_and_symbolic_lines() {
    let direct = decode(
        &b"aaaaaaaaaaaaaaaaaaaaaaaaaaaaaaaaaaaaaaaa\n".to_vec(),
        b"refs/heads/main".to_vec(),
    )
    .expect("hex decodes");
    assert!(direct.peeled.is_none());
    match direct.target {
        Target::Peeled(id) => assert_eq!(id.as_bytes(), &vec![0xaau8; 20]),
        Target::Symbolic(_) => panic!("hex content is a direct id"),
    }
    let sym = decode(&b"ref: refs/heads/main\r\n".to_vec(), b"HEAD".to_vec())
        .expect("symbolic decodes");
    match sym.target {
        Target::Symbolic(n) => assert_eq!(n, b"refs/heads/main".to_vec()),
        Target::Peeled(_) => panic!("a ref: line is symbolic"),
    }
}

#[test]
fn loose_decode_rejects_bad_content() {
    assert!(decode(&b"ref: not//valid\n".to_vec(), b"HEAD".to_vec()).is_err());
    assert!(decode(&b"garbage".to_vec(), b"x".to_vec()).is_err());
    assert!(decode(&b"".to_vec(), b"x".to_vec()).is_err());
}

#[test]
fn packed_parse_reads_entries_comments_and_peel_lines() {
    let mut text = Vec::new();
    text.extend_from_slice(b"# pack-refs with: peeled fully-peeled sorted \n");
    text.extend_from_slice(b"aaaaaaaaaaaaaaaaaaaaaaaaaaaaaaaaaaaaaaaa refs/heads/main\n");
    text.extend_from_slice(b"bbbbbbbbbbbbbbbbbbbbbbbbbbbbbbbbbbbbbbbb refs/tags/v1\n");
    text.extend_from_slice(b"^cccccccccccccccccccccccccccccccccccccccc\n");
    let buf = PackedBuffer::parse(&text).expect("a well-formed table parses");
    assert_eq!(buf.len(), 2);
    let main = buf.find(&b"refs/heads/main".to_vec()).expect("first row");
    assert_eq!(main.target.as_bytes(), &vec![0xaau8; 20]);
    assert!(main.peeled.is_none());
    let v1 = buf.find(&b"refs/tags/v1".to_vec()).expect("second row");
    assert_eq!(v1.target.as_bytes(), &vec![0xbbu8; 20]);
    assert_eq!(
        v1.peeled.as_ref().expect("the caret line annotated it").as_bytes(),
        &vec![0xccu8; 20]
    );
    assert!(buf.find(&b"refs/absent".to_vec()).is_none());
}

#[test]
fn packed_parse_rejects_malformed_lines() {
    assert!(PackedBuffer::parse(&b"^aaaaaaaaaaaaaaaaaaaaaaaaaaaaaaaaaaaaaaaa\n".to_vec()).is_err());
    assert!(PackedBuffer::parse(&b"nothex refs/heads/main\n".to_vec()).is_err());
    assert!(PackedBuffer::parse(
        &b"aaaaaaaaaaaaaaaaaaaaaaaaaaaaaaaaaaaaaaaa bad//name\n".to_vec()
    )
    .is_err());
    assert!(PackedBuffer::parse(&b"".to_vec()).expect("empty input is an empty table").len() == 0);
}

#[test]
fn tag_objects_name_their_target() {
    let mut data = b"object aaaaaaaaaaaaaaaaaaaaaaaaaaaaaaaaaaaaaaaa\n".to_vec();
    data.extend_from_slice(b"type commit\ntag v1\n");
    let id = tag_target(&data).expect("the header names the target");
    assert_eq!(id.as_bytes(), &vec![0xaau8; 20]);
    assert!(tag_target(&b"object short\n".to_vec()).is_none());
    assert!(tag_target(&b"tree aaaaaaaaaaaaaaaaaaaaaaaaaaaaaaaaaaaaaaaa\nrest".to_vec()).is_none());
}

#[test]
fn probe_combines_outcomes_over_defaults() {
    let all_failed = Context::probe(None, None, None);
    assert_eq!(all_failed, Context::default());
    let probed = Context::probe(Some(false), Some(true), None);
    assert!(!probed.symlink);
    assert!(probed.ignore_case);
    assert!(!probed.precompose_unicode);
    assert!(probed.file_mode);
}

#[test]
fn checkout_decisions_follow_the_entry_and_the_file_system() {
    let opts = Options { fs: Context::default(), destination_is_initially_empty: true };
    assert_eq!(
        checkout_action(Mode::File, false, &opts),
        CheckoutAction::WriteFile { executable: false }
    );
    assert_eq!(
        checkout_action(Mode::FileExecutable, false, &opts),
        CheckoutAction::WriteFile { executable: true }
    );
    assert_eq!(checkout_action(Mode::Symlink, false, &opts), CheckoutAction::WriteSymlink);
    let no_links = Options {
        fs: Context { symlink: false, ..Context::default() },
        destination_is_initially_empty: true,
    };
    assert_eq!(
        checkout_action(Mode::Symlink, false, &no_links),
        CheckoutAction::WriteSymlinkAsFile
    );
    assert_eq!(checkout_action(Mode::File, true, &opts), CheckoutAction::Skip);
    assert_eq!(checkout_action(Mode::Dir, false, &opts), CheckoutAction::Unsupported);
    let not_empty = Options { fs: Context::default(), destination_is_initially_empty: false };
    assert_eq!(checkout_action(Mode::File, false, &not_empty), CheckoutAction::Unsupported);
}

#[test]
fn fstat_update_checks_the_field_width() {
    let mut s = EntryStat {
        mtime: Stat { secs: 0, nsecs: 0 },
        ctime: Stat { secs: 0, nsecs: 0 },
    };
    s.update_fstat(10, 20, 30, 40).expect("small times fit");
    assert_eq!(s.ctime, Stat { secs: 10, nsecs: 20 });
    assert_eq!(s.mtime, Stat { secs: 30, nsecs: 40 });
    assert!(s.update_fstat(u64::MAX, 0, 0, 0).is_err());
    assert_eq!(s.ctime, Stat { secs: 10, nsecs: 20 }, "a refused update changes nothing");
}

#[test]
fn integer_suffixes_scale_by_binary_magnitudes() {
    assert_eq!(Suffix::Kibi.bitwise_offset(), 10);
    assert_eq!(Suffix::Mebi.bitwise_offset(), 20);
    assert_eq!(Suffix::Gibi.bitwise_offset(), 30);
    let v = Integer { value: 3, suffix: Some(Suffix::Kibi) };
    assert_eq!((v.value as i128) << v.suffix.unwrap().bitwise_offset(), 3072);
}

#[test]
fn scalar_value_shapes_hold_their_spelling() {
    let b = Boolean::True(TrueVariant::Explicit(b"yes".to_vec()));
    match b {
        Boolean::True(TrueVariant::Explicit(w)) => assert_eq!(w, b"yes".to_vec()),
        _ => panic!("the spelling is kept"),
    }
    let f = Boolean::False(b"off".to_vec());
    assert!(matches!(f, Boolean::False(_)));
    let p = ValuePath { value: b"~/template".to_vec() };
    assert_eq!(p.value, b"~/template".to_vec());
}
