use ara_source::error::Error;
use ara_source::error::IoFailure;
use ara_source::error::IoFailureKind;
use ara_source::tree::Entry;
use ara_source::tree::Node;

#[test]
fn nodes_tell_files_from_directories() {
    let failure = IoFailure::new(IoFailureKind::Other, "interrupted");

    assert!(Node::File.is_file());
    assert!(!Node::File.is_dir());
    assert!(Node::Directory(vec![]).is_dir());
    assert!(!Node::Directory(vec![]).is_file());
    assert!(Node::Unreadable(failure).is_dir());
    assert!(!Node::Missing.is_dir());
    assert!(!Node::Missing.is_file());
}

#[test]
fn entries_hold_a_name_and_a_node() {
    let entry = Entry::new("src", Node::Directory(vec![Entry::new("main.ara", Node::File)]));

    assert_eq!(entry.name, "src");
    match entry.node {
        Node::Directory(entries) => {
            assert_eq!(entries.len(), 1);
            assert_eq!(entries[0].name, "main.ara");
            assert!(entries[0].node.is_file());
        }
        _ => panic!("the entry holds a directory"),
    }
}

#[test]
fn failures_are_copied_and_wrapped() {
    let failure = IoFailure::new(IoFailureKind::NotFound, "No such file or directory");
    let copy = failure.clone();

    assert_eq!(copy.kind, IoFailureKind::NotFound);
    assert_eq!(copy.code, None);
    assert_eq!(copy.message, failure.message);

    match Error::from(failure) {
        Error::IoError(wrapped) => {
            assert_eq!(wrapped.kind, IoFailureKind::NotFound);
            assert_eq!(wrapped.message, "No such file or directory");
        }
        _ => panic!("a failure of the file system is an IoError"),
    }
    assert_eq!(
        Error::from(copy).message(),
        "io error: No such file or directory"
    );
}

#[test]
fn a_failure_keeps_the_code_of_the_operating_system() {
    let denied = IoFailure::from_os(
        IoFailureKind::PermissionDenied,
        13,
        "Permission denied (os error 13)",
    );
    let copy = denied.clone();

    assert_eq!(copy.kind, IoFailureKind::PermissionDenied);
    assert_eq!(copy.code, Some(13));
    assert_eq!(copy.message, "Permission denied (os error 13)");

    match Error::from(denied) {
        Error::IoError(wrapped) => {
            assert_eq!(wrapped.kind, IoFailureKind::PermissionDenied);
            assert_eq!(wrapped.code, Some(13));
            assert_eq!(wrapped.message, "Permission denied (os error 13)");
        }
        _ => panic!("a failure of the file system is an IoError"),
    }
}
