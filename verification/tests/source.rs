use std::hash::Hasher;
use std::sync::Arc;

use ara_source::error::Error;
use ara_source::error::IoFailure;
use ara_source::error::IoFailureKind;
use ara_source::hash::ContentHasher;
use ara_source::hash::FxHasher;
use ara_source::source::Source;
use ara_source::source::SourceKind;
use ara_source::source::DEFAULT_NAME;

#[test]
fn located_source_starts_without_content() {
    let source = Source::new(SourceKind::Script, "/Documents/Project", "src/main.ara");

    assert_eq!(source.kind, SourceKind::Script);
    assert_eq!(source.origin, Some("src/main.ara".to_string()));
    assert_eq!(source.root, Some("/Documents/Project".to_string()));
    assert_eq!(source.content, None);
    assert_eq!(source.name(), "src/main.ara");
}

#[test]
fn inline_source_carries_its_content() {
    let mut source = Source::inline(SourceKind::Definition, "function main(): void {}");

    assert_eq!(source.kind, SourceKind::Definition);
    assert_eq!(source.root, None);
    assert_eq!(source.origin, None);
    assert_eq!(source.name(), "<unknown>");
    assert_eq!(source.name(), DEFAULT_NAME);
    assert_eq!(source.source_path(), None);
    assert_eq!(source.pending_read(), None);
    assert_eq!(*source.content(None).unwrap(), "function main(): void {}");
}

#[test]
fn inline_text_is_kept_exactly() {
    let mut source = Source::inline(SourceKind::Script, "text");

    assert_eq!(*source.content(None).unwrap(), "text");
    assert_eq!(source.origin, None);
    assert_eq!(source.root, None);
    assert_eq!(source.name(), "<unknown>");
}

#[test]
fn source_path_puts_the_origin_behind_the_root() {
    let source = Source::new(SourceKind::Definition, "/Documents/Project", "src/Foo/main.ara");
    assert_eq!(
        source.source_path(),
        Some("/Documents/Project/src/Foo/main.ara".to_string())
    );

    let source = Source::new(SourceKind::Script, "/Documents/Project/", "src/main.ara");
    assert_eq!(
        source.source_path(),
        Some("/Documents/Project/src/main.ara".to_string())
    );

    let source = Source::new(SourceKind::Script, "/Documents/Project", "/elsewhere/main.ara");
    assert_eq!(source.source_path(), Some("/elsewhere/main.ara".to_string()));
}

#[test]
fn content_is_read_once_and_then_kept() {
    let mut source = Source::new(SourceKind::Script, "/project", "src/main.ara");
    let mut reads = 0;

    for _ in 0..2 {
        let read = match source.pending_read() {
            Some(path) => {
                assert_eq!(path, "/project/src/main.ara");
                reads += 1;
                Some(Ok("function main(): void {}".to_string()))
            }
            None => None,
        };
        assert_eq!(*source.content(read).unwrap(), "function main(): void {}");
    }
    assert_eq!(reads, 1);

    source.dispose_content();
    assert_eq!(source.content, None);

    for _ in 0..2 {
        let read = match source.pending_read() {
            Some(_) => {
                reads += 1;
                Some(Ok("function main(): int {}".to_string()))
            }
            None => None,
        };
        assert_eq!(*source.content(read).unwrap(), "function main(): int {}");
    }
    assert_eq!(reads, 2);
}

#[test]
fn kept_content_wins_over_a_read() {
    let mut source = Source::new(SourceKind::Script, "/project", "a.ara");
    assert_eq!(*source.content(Some(Ok("first".to_string()))).unwrap(), "first");
    assert_eq!(*source.content(Some(Ok("second".to_string()))).unwrap(), "first");
    assert_eq!(
        *source
            .content(Some(Err(IoFailure::new(IoFailureKind::NotFound, "gone"))))
            .unwrap(),
        "first"
    );
}

#[test]
fn failed_read_is_handed_on_and_nothing_is_kept() {
    let mut source = Source::new(SourceKind::Script, "/project", "a.ara");
    let failure = IoFailure::from_os(IoFailureKind::PermissionDenied, 13, "permission denied");

    let error = source.content(Some(Err(failure))).unwrap_err();
    assert_eq!(error.kind, IoFailureKind::PermissionDenied);
    assert_eq!(error.code, Some(13));
    assert_eq!(error.message, "permission denied");
    assert_eq!(source.content, None);
    assert_eq!(source.pending_read(), Some("/project/a.ara".to_string()));

    let error = source
        .hash(Some(Err(IoFailure::new(IoFailureKind::NotFound, "not found"))))
        .unwrap_err();
    assert_eq!(error.kind, IoFailureKind::NotFound);
    assert_eq!(Error::from(error).message(), "io error: not found");
}

#[test]
fn dispose_leaves_an_inline_source_alone() {
    let mut source = Source::inline(SourceKind::Script, "only copy");
    source.dispose_content();

    assert_eq!(source.content, Some(Arc::new("only copy".to_string())));
    assert_eq!(*source.content(None).unwrap(), "only copy");
}

#[test]
fn hash_reads_like_content_and_depends_on_the_text_alone() {
    let mut located = Source::new(SourceKind::Script, "/project", "a.ara");
    let mut inline = Source::inline(SourceKind::Definition, "function main(): void {}");

    let read = Some(Ok("function main(): void {}".to_string()));
    let first = located.hash(read).unwrap();
    assert_eq!(
        located.content,
        Some(Arc::new("function main(): void {}".to_string()))
    );
    assert_eq!(located.hash(None).unwrap(), first);
    assert_eq!(inline.hash(None).unwrap(), first);

    located.dispose_content();
    let changed = located.hash(Some(Ok("function main(): int {}".to_string()))).unwrap();
    assert_ne!(changed, first);
}

#[test]
fn fx_hasher_gives_the_digest_of_the_fx_algorithm() {
    let hasher = FxHasher::new();
    assert_eq!(hasher, FxHasher::default());

    for text in ["", "a", "abc", "function main(): void {}", "größer"] {
        let mut outside = rustc_hash::FxHasher::default();
        outside.write(text.as_bytes());
        assert_eq!(hasher.hash(text), outside.finish());
    }
    assert_eq!(hasher.hash(""), 0);
    assert_ne!(hasher.hash("a"), hasher.hash("b"));
}

#[test]
fn fx_digest_on_a_64_bit_little_endian_machine() {
    if usize::BITS == 64 && 1u16.to_ne_bytes() == 1u16.to_le_bytes() {
        let hasher = FxHasher::new();
        assert_eq!(hasher.hash("a"), 16160435425421689461);
        assert_eq!(hasher.hash("abc"), 14078489212813478179);
        assert_eq!(hasher.hash("function main(): void {}"), 7097278738564247862);
    }
}

#[test]
fn content_is_shared_and_not_copied() {
    let mut source = Source::new(SourceKind::Script, "/project", "a.ara");
    let first = source.content(Some(Ok("text".to_string()))).unwrap();
    let second = source.content(None).unwrap();

    assert!(Arc::ptr_eq(&first, &second));
    assert!(Arc::ptr_eq(&first, source.content.as_ref().unwrap()));
    assert!(Arc::ptr_eq(&first, source.clone().content.as_ref().unwrap()));
}

#[test]
fn clone_copies_every_field() {
    let mut source = Source::new(SourceKind::Definition, "/project", "a.d.ara");
    source.content(Some(Ok("text".to_string()))).unwrap();
    let copy = source.clone();

    assert_eq!(copy, source);
    assert_eq!(copy.content, Some(Arc::new("text".to_string())));
}
