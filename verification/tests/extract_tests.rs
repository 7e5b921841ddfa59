use nexus_supervisor::extract::{archive_open_outcome, entry_target, join_components, ExtractError};

fn bytes(s: &[u8]) -> Vec<u8> {
    s.to_vec()
}

#[test]
fn plain_entry_is_accepted() {
    let target = entry_target(&bytes(b"dir/sub/file.txt")).unwrap();
    assert_eq!(target, vec![bytes(b"dir"), bytes(b"sub"), bytes(b"file.txt")]);
}

#[test]
fn parent_steps_past_the_root_are_rejected() {
    assert!(entry_target(&bytes(b"../../etc/passwd")).is_none());
    assert!(entry_target(&bytes(b"a/../../b")).is_none());
    assert!(entry_target(&bytes(b"..")).is_none());
}

#[test]
fn backslash_parent_steps_are_rejected_too() {
    assert!(entry_target(&bytes(b"a\\..\\..\\b")).is_none());
}

#[test]
fn inner_parent_steps_are_resolved() {
    let target = entry_target(&bytes(b"a/b/../c")).unwrap();
    assert_eq!(target, vec![bytes(b"a"), bytes(b"c")]);
}

#[test]
fn dot_and_empty_components_are_dropped() {
    let target = entry_target(&bytes(b"dir/./sub//file.txt")).unwrap();
    assert_eq!(target, vec![bytes(b"dir"), bytes(b"sub"), bytes(b"file.txt")]);
}

#[test]
fn a_leading_separator_is_stripped() {
    let target = entry_target(&bytes(b"/abs/path")).unwrap();
    assert_eq!(target, vec![bytes(b"abs"), bytes(b"path")]);
}

#[test]
fn mixed_separators_split_alike() {
    let target = entry_target(&bytes(b"win\\style/mixed")).unwrap();
    assert_eq!(target, vec![bytes(b"win"), bytes(b"style"), bytes(b"mixed")]);
}

#[test]
fn join_components_builds_the_target_path() {
    let comps = vec![bytes(b"a"), bytes(b"b.txt")];
    let joined = join_components(&bytes(b"/data/bridge"), &comps);
    assert_eq!(joined, bytes(b"/data/bridge/a/b.txt"));
}

#[test]
fn every_accepted_target_starts_inside_the_destination() {
    let dest = bytes(b"/data/bridge");
    let names: Vec<&[u8]> = vec![
        b"a",
        b"a/b/c",
        b"./a",
        b"/x/y",
        b"a/../b",
        b"..\\escape",
        b"../..",
        b"deep/../../x",
        b"trailing/",
    ];
    for name in names {
        if let Some(comps) = entry_target(&name.to_vec()) {
            let target = join_components(&dest, &comps);
            assert!(target.starts_with(b"/data/bridge"));
            if !comps.is_empty() {
                assert_eq!(target[dest.len()], b'/');
            }
        }
    }
}

#[test]
fn an_unreadable_archive_is_the_hard_failure() {
    assert_eq!(archive_open_outcome(false), Err(ExtractError::ArchiveUnreadable));
    assert_eq!(archive_open_outcome(true), Ok(()));
}
