use soundsense_rs::error::LoadError;
use soundsense_rs::ignore::{FileRead, IgnoreList};
use soundsense_rs::tailer::{GamelogCursor, Polled, Snapshot};
use soundsense_rs::text::{contains, contains_folded, copy_range, matches_at, split_complete};
use soundsense_rs::text::to_lower;

fn lines_of(polled: Polled) -> Vec<Vec<u8>> {
    match polled {
        Polled::Lines(lines) => lines,
        Polled::Unavailable => panic!("the gamelog was expected to be readable"),
    }
}

#[test]
fn matches_at_checks_one_position() {
    assert!(matches_at(b"hello world", b"world", 6));
    assert!(!matches_at(b"hello world", b"world", 5));
    assert!(!matches_at(b"hello world", b"world", 7));
    assert!(matches_at(b"hello", b"", 5));
    assert!(!matches_at(b"hello", b"", 6));
}

#[test]
fn contains_handles_the_edges() {
    assert!(contains(b"", b""));
    assert!(contains(b"abc", b""));
    assert!(!contains(b"", b"a"));
    assert!(contains(b"abc", b"abc"));
    assert!(contains(b"abc", b"c"));
    assert!(!contains(b"abc", b"abcd"));
    assert!(!contains(b"abc", b"C"));
}

#[test]
fn folding_touches_ascii_capitals_only() {
    assert_eq!(to_lower(b"AbC xyZ 09 @[`{"), b"abc xyz 09 @[`{".to_vec());
    assert_eq!(to_lower(&[0xC4, 0x41, 0x5A, 0x5B]), vec![0xC4, 0x61, 0x7A, 0x5B]);
    assert!(contains_folded(b"It has STARTED Raining.", b"started raining"));
    assert!(contains_folded(b"it has started raining.", b"Started RAINING"));
    assert!(!contains_folded(b"It has started raining.", b"started snowing"));
}

#[test]
fn copy_range_copies_the_window() {
    assert_eq!(copy_range(b"hello world", 6, 11), b"world".to_vec());
    assert_eq!(copy_range(b"hello", 2, 2), Vec::<u8>::new());
}

#[test]
fn split_complete_keeps_the_partial_line_back() {
    let (lines, rest) = split_complete(b"one\ntwo\nthr");
    assert_eq!(lines, vec![b"one".to_vec(), b"two".to_vec()]);
    assert_eq!(rest, 8);
    let (lines, rest) = split_complete(b"no newline");
    assert!(lines.is_empty());
    assert_eq!(rest, 0);
    let (lines, rest) = split_complete(b"\n\nx\n");
    assert_eq!(lines, vec![Vec::new(), Vec::new(), b"x".to_vec()]);
    assert_eq!(rest, 4);
    let (lines, rest) = split_complete(b"");
    assert!(lines.is_empty());
    assert_eq!(rest, 0);
}

#[test]
fn poll_returns_only_complete_lines() {
    let mut cursor = GamelogCursor::new("gamelog.txt".to_string(), 1, 0);
    let first = Snapshot { identity: 1, len: 9, tail: b"alpha\nbet".to_vec() };
    assert_eq!(lines_of(cursor.poll(Some(&first))), vec![b"alpha".to_vec()]);
    assert_eq!(cursor.byte_offset(), 6);
    assert_eq!(cursor.resume_offset(1, 16), 6);
    let second = Snapshot { identity: 1, len: 16, tail: b"beta\ngamma".to_vec() };
    assert_eq!(lines_of(cursor.poll(Some(&second))), vec![b"beta".to_vec()]);
    assert_eq!(cursor.byte_offset(), 11);
    let third = Snapshot { identity: 1, len: 17, tail: b"gamma\n".to_vec() };
    assert_eq!(lines_of(cursor.poll(Some(&third))), vec![b"gamma".to_vec()]);
    assert_eq!(cursor.byte_offset(), 17);
}

#[test]
fn poll_never_passes_the_end_of_the_file() {
    let mut cursor = GamelogCursor::new("gamelog.txt".to_string(), 1, 3);
    for (len, tail) in [(3u64, &b""[..]), (5, b"a\n"), (5, b""), (9, b"bc\nd"), (2, b"x\n")] {
        let snapshot = Snapshot { identity: 1, len, tail: tail.to_vec() };
        lines_of(cursor.poll(Some(&snapshot)));
        assert!(cursor.byte_offset() <= len);
    }
}

#[test]
fn two_polls_return_what_one_poll_would() {
    let file = b"one\ntwo\nthree\nfou".to_vec();
    let mut stepwise = GamelogCursor::new("gamelog.txt".to_string(), 1, 0);
    let mut collected = lines_of(
        stepwise.poll(Some(&Snapshot { identity: 1, len: 6, tail: file[0..6].to_vec() })),
    );
    let from = stepwise.resume_offset(1, 17) as usize;
    assert_eq!(from, 4);
    collected.extend(lines_of(
        stepwise.poll(Some(&Snapshot { identity: 1, len: 17, tail: file[from..].to_vec() })),
    ));
    let mut at_once = GamelogCursor::new("gamelog.txt".to_string(), 1, 0);
    let whole = lines_of(at_once.poll(Some(&Snapshot { identity: 1, len: 17, tail: file.clone() })));
    assert_eq!(collected, whole);
    assert_eq!(whole, vec![b"one".to_vec(), b"two".to_vec(), b"three".to_vec()]);
    assert_eq!(stepwise.byte_offset(), at_once.byte_offset());
    assert_eq!(at_once.byte_offset(), 14);
}

#[test]
fn poll_without_a_snapshot_changes_nothing() {
    let mut cursor = GamelogCursor::new("gamelog.txt".to_string(), 1, 6);
    assert!(matches!(cursor.poll(None), Polled::Unavailable));
    let wrong = Snapshot { identity: 1, len: 10, tail: b"abc".to_vec() };
    assert!(matches!(cursor.poll(Some(&wrong)), Polled::Unavailable));
    assert_eq!(cursor.byte_offset(), 6);
    assert_eq!(cursor.fingerprint(), 1);
    assert_eq!(cursor.path(), "gamelog.txt");
}

#[test]
fn ignore_list_takes_each_line_once() {
    let list = IgnoreList::load(&FileRead::Content(b"cancels\n\nstarted raining\ncancels\nlast".to_vec()))
        .unwrap();
    assert_eq!(list.len(), 3);
    assert!(list.matches(b"Urist cancels Sleep: interrupted."));
    assert!(list.matches(b"It has started raining."));
    assert!(list.matches(b"at last"));
    assert!(!list.matches(b"Urist Cancels Sleep."));
    assert!(!list.matches(b"Nothing of note."));
}

#[test]
fn missing_or_empty_ignore_file_gives_the_empty_filter() {
    let missing = IgnoreList::load(&FileRead::Missing).unwrap();
    assert_eq!(missing.len(), 0);
    assert!(!missing.matches(b"anything"));
    assert!(!missing.matches(b""));
    let empty = IgnoreList::load(&FileRead::Content(Vec::new())).unwrap();
    assert_eq!(empty.len(), 0);
    let blank = IgnoreList::load(&FileRead::Content(b"\n\n\n".to_vec())).unwrap();
    assert_eq!(blank.len(), 0);
    assert!(!blank.matches(b"anything"));
    assert_eq!(IgnoreList::empty().len(), 0);
}

#[test]
fn unreadable_ignore_file_is_unavailable() {
    assert_eq!(IgnoreList::load(&FileRead::Unavailable).err(), Some(LoadError::Unavailable));
}
