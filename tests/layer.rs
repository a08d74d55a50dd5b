use oci_bundle::layer::{
    bytes_less, classify_entry, path_within, ClearStep, EntryAction, LayerState,
};
use oci_bundle::path::{contains_parent_component, split_name};

#[test]
fn regular_file_is_unpacked() {
    assert!(matches!(classify_entry(b"a/b/c/foo", false), EntryAction::Regular));
}

#[test]
fn traversal_entry_is_skipped() {
    assert!(matches!(classify_entry(b"../escape", false), EntryAction::Traversal));
    assert!(matches!(classify_entry(b"a/../../escape", false), EntryAction::Traversal));
    assert!(matches!(classify_entry(b"a/..", true), EntryAction::Traversal));
}

#[test]
fn dots_inside_a_name_are_no_traversal() {
    assert!(!contains_parent_component(b"a/..b/c"));
    assert!(!contains_parent_component(b"a/b../c"));
    assert!(contains_parent_component(b".."));
    assert!(contains_parent_component(b"x/../y"));
}

#[test]
fn directory_is_deferred() {
    assert!(matches!(classify_entry(b"a/b/", true), EntryAction::Directory));
}

#[test]
fn opaque_whiteout_names_its_directory() {
    match classify_entry(b"a/.wh..wh..opq", false) {
        EntryAction::Opaque { dir } => assert_eq!(dir, b"a".to_vec()),
        other => panic!("unexpected {:?}", other),
    }
    match classify_entry(b".wh..wh..opq", false) {
        EntryAction::Opaque { dir } => assert!(dir.is_empty()),
        other => panic!("unexpected {:?}", other),
    }
}

#[test]
fn regular_whiteout_names_its_sibling() {
    match classify_entry(b"a/b/c/.wh.bar", false) {
        EntryAction::Whiteout { target } => assert_eq!(target, b"a/b/c/bar".to_vec()),
        other => panic!("unexpected {:?}", other),
    }
    match classify_entry(b".wh.top", false) {
        EntryAction::Whiteout { target } => assert_eq!(target, b"top".to_vec()),
        other => panic!("unexpected {:?}", other),
    }
}

#[test]
fn bare_whiteout_prefix_is_a_regular_file() {
    assert!(matches!(classify_entry(b"a/.wh.", false), EntryAction::Regular));
}

#[test]
fn nameless_entry_is_skipped() {
    assert!(matches!(classify_entry(b"", false), EntryAction::Nameless));
    assert!(matches!(classify_entry(b"a/.", false), EntryAction::Nameless));
}

#[test]
fn split_name_ignores_trailing_slashes() {
    assert_eq!(split_name(b"a/b/c//"), (b"a/b".to_vec(), b"c".to_vec()));
    assert_eq!(split_name(b"foo"), (Vec::new(), b"foo".to_vec()));
}

#[test]
fn within_means_self_or_ancestor() {
    assert!(path_within(b"a/b", b"a/b"));
    assert!(path_within(b"a/b", b"a/b/c"));
    assert!(!path_within(b"a/b", b"a/bc"));
    assert!(!path_within(b"a/b/c", b"a/b"));
}

#[test]
fn byte_order_puts_prefix_first() {
    assert!(bytes_less(b"a", b"a/b"));
    assert!(bytes_less(b"a/b", b"b"));
    assert!(!bytes_less(b"b", b"a/b"));
    assert!(!bytes_less(b"a", b"a"));
}

#[test]
fn state_records_added_files_and_keeps_them() {
    let mut st = LayerState::new();
    assert!(matches!(st.record(b"a/b/new".to_vec(), false), EntryAction::Regular));
    assert!(matches!(st.record(b"a/.wh.gone".to_vec(), false), EntryAction::Whiteout { .. }));
    assert!(matches!(st.record(b"../x".to_vec(), false), EntryAction::Traversal));
    assert!(st.keeps(b"a/b/new"));
    assert!(st.keeps(b"a/b/new/inner"));
    assert!(!st.keeps(b"a/b"));
    assert!(!st.keeps(b"a/gone"));
    assert!(!st.keeps(b"../x"));
}

#[test]
fn deferred_dirs_come_out_in_reverse_byte_order() {
    let mut st = LayerState::new();
    for d in ["a", "b", "a/b", "a/b/c", "c"] {
        assert!(matches!(st.record(d.as_bytes().to_vec(), true), EntryAction::Directory));
    }
    let dirs: Vec<Vec<u8>> = st.into_sorted_dirs();
    let expected: Vec<Vec<u8>> =
        ["c", "b", "a/b/c", "a/b", "a"].iter().map(|s| s.as_bytes().to_vec()).collect();
    assert_eq!(dirs, expected);
}

#[test]
fn empty_layer_leaves_nothing_to_do() {
    let st = LayerState::new();
    assert!(!st.keeps(b"a"));
    assert!(st.into_sorted_dirs().is_empty());
}

#[test]
fn whiteout_then_readd_in_same_layer_is_kept() {
    let mut st = LayerState::new();
    st.record(b"a/b/c/foo".to_vec(), false);
    match st.record(b"a/b/c/.wh.bar".to_vec(), false) {
        EntryAction::Whiteout { target } => assert_eq!(target, b"a/b/c/bar".to_vec()),
        other => panic!("unexpected {:?}", other),
    }
    assert!(st.keeps(b"a/b/c/foo"));
    assert!(!st.keeps(b"a/b/c/bar"));
}

#[test]
fn opaque_clear_keeps_new_children_and_their_directories() {
    let mut st = LayerState::new();
    st.record(b"a/b/c/new".to_vec(), false);
    assert!(matches!(st.record(b"a/.wh..wh..opq".to_vec(), false), EntryAction::Opaque { .. }));
    assert!(matches!(st.clear_step(b"a/b"), ClearStep::Descend));
    assert!(matches!(st.clear_step(b"a/b/c"), ClearStep::Descend));
    assert!(matches!(st.clear_step(b"a/b/c/new"), ClearStep::Keep));
    assert!(matches!(st.clear_step(b"a/b/c/old"), ClearStep::Remove));
    assert!(matches!(st.clear_step(b"a/x"), ClearStep::Remove));
}
