use state_machine::OverlayedChanges;

#[test]
fn overlayed_storage_works() {
    let mut overlayed = OverlayedChanges::default();

    let key = vec![42, 69, 169, 142];

    assert!(overlayed.storage(&key).is_none());

    overlayed.set_storage(key.clone(), vec![1, 2, 3]);
    assert_eq!(overlayed.storage(&key).unwrap(), vec![1, 2, 3]);

    overlayed.commit_prospective();
    assert_eq!(overlayed.storage(&key).unwrap(), vec![1, 2, 3]);

    overlayed.set_storage(key.clone(), vec![]);
    assert!(overlayed.storage(&key).is_none());

    overlayed.discard_prospective();
    assert_eq!(overlayed.storage(&key).unwrap(), vec![1, 2, 3]);

    overlayed.set_storage(key.clone(), vec![]);
    overlayed.commit_prospective();
    assert!(overlayed.storage(&key).is_none());
}

#[test]
fn discard_restores_reads_before_writes() {
    let mut overlayed = OverlayedChanges::default();

    overlayed.set_storage(b"a".to_vec(), b"1".to_vec());
    overlayed.commit_prospective();

    overlayed.set_storage(b"a".to_vec(), b"2".to_vec());
    overlayed.set_storage(b"b".to_vec(), b"3".to_vec());
    overlayed.set_storage(b"a".to_vec(), vec![]);
    overlayed.discard_prospective();

    assert_eq!(overlayed.storage(b"a").unwrap(), b"1".to_vec());
    assert!(overlayed.storage(b"b").is_none());
}

#[test]
fn commit_is_read_transparent() {
    let mut overlayed = OverlayedChanges::default();

    overlayed.set_storage(b"a".to_vec(), b"1".to_vec());
    overlayed.commit_prospective();
    overlayed.set_storage(b"a".to_vec(), b"2".to_vec());
    overlayed.set_storage(b"b".to_vec(), b"3".to_vec());
    overlayed.set_storage(b"c".to_vec(), vec![]);

    let before: Vec<Option<Vec<u8>>> =
        vec![overlayed.storage(b"a"), overlayed.storage(b"b"), overlayed.storage(b"c")];
    overlayed.commit_prospective();
    let after: Vec<Option<Vec<u8>>> =
        vec![overlayed.storage(b"a"), overlayed.storage(b"b"), overlayed.storage(b"c")];
    assert_eq!(before, after);

    // A later discard has no effect on the committed writes.
    overlayed.discard_prospective();
    assert_eq!(overlayed.storage(b"a").unwrap(), b"2".to_vec());
    assert_eq!(overlayed.storage(b"b").unwrap(), b"3".to_vec());
}

#[test]
fn empty_write_then_commit_removes_committed_key() {
    let mut overlayed = OverlayedChanges::default();

    overlayed.set_storage(b"gone".to_vec(), b"present".to_vec());
    overlayed.commit_prospective();
    assert_eq!(overlayed.storage(b"gone").unwrap(), b"present".to_vec());

    overlayed.set_storage(b"gone".to_vec(), vec![]);
    overlayed.commit_prospective();
    assert!(overlayed.storage(b"gone").is_none());
}

#[test]
fn discard_twice_equals_discard_once() {
    let mut overlayed = OverlayedChanges::default();

    overlayed.set_storage(b"a".to_vec(), b"1".to_vec());
    overlayed.commit_prospective();
    overlayed.set_storage(b"a".to_vec(), b"2".to_vec());

    overlayed.discard_prospective();
    let once = overlayed.storage(b"a");
    overlayed.discard_prospective();
    let twice = overlayed.storage(b"a");

    assert_eq!(once, twice);
    assert_eq!(once.unwrap(), b"1".to_vec());
}

#[test]
fn code_accessor_uses_reserved_key() {
    let mut overlayed = OverlayedChanges::default();

    assert_eq!(overlayed.code(), Vec::<u8>::new());

    overlayed.set_code(b"wasm blob".to_vec());
    assert_eq!(overlayed.code(), b"wasm blob".to_vec());
    assert_eq!(overlayed.storage(b"\0code").unwrap(), b"wasm blob".to_vec());

    overlayed.discard_prospective();
    assert_eq!(overlayed.code(), Vec::<u8>::new());
}
