//! The gamelog tailer: a cursor into a growing log file that yields each
//! complete line once and starts over when the file is rotated or truncated.
//!
//! The tailer reads nothing itself. Each cycle the caller looks at the file,
//! asks [`GamelogCursor::resume_offset`] where to read from, reads from there
//! to the end, and hands the bytes to [`GamelogCursor::poll`].

use vstd::prelude::*;
use crate::text::{complete_lines, contents, pending_start, split_complete};
use crate::text::{lemma_complete_lines_append, lemma_pending_start_bound};

verus! {

/// What a cursor stands for.
pub struct CursorView {
    pub path: Seq<char>,
    pub byte_offset: nat,
    pub fingerprint: u64,
}

/// A position in the gamelog: every byte before `byte_offset` has been
/// handed out as part of a complete line, in the file known by `fingerprint`.
pub struct GamelogCursor {
    path: String,
    byte_offset: u64,
    fingerprint: u64,
}

/// What one look at the file found: which file it is, how long it is, and
/// its bytes from the cursor's resume offset to its end.
pub struct Snapshot {
    pub identity: u64,
    pub len: u64,
    pub tail: Vec<u8>,
}

/// What a poll yields.
pub enum Polled {
    /// The file could not be read this time; the cursor is as it was.
    Unavailable,
    /// The complete lines that are new, oldest first.
    Lines(Vec<Vec<u8>>),
}

/// The file was replaced or has shrunk below the cursor.
pub open spec fn rotated(cursor: CursorView, identity: u64, len: u64) -> bool {
    identity != cursor.fingerprint || len < cursor.byte_offset
}

/// Where reading resumes: at the cursor, or at 0 after a rotation.
pub open spec fn resume_from(cursor: CursorView, identity: u64, len: u64) -> nat {
    if rotated(cursor, identity, len) {
        0
    } else {
        cursor.byte_offset
    }
}

/// The snapshot holds the bytes from the resume offset to the end of the file.
pub open spec fn consistent(cursor: CursorView, identity: u64, len: u64, tail: Seq<u8>) -> bool {
    tail.len() == len - resume_from(cursor, identity, len)
}

/// The cursor after a poll that could read the file.
pub open spec fn advanced(cursor: CursorView, identity: u64, len: u64, tail: Seq<u8>) -> CursorView {
    CursorView {
        path: cursor.path,
        byte_offset: resume_from(cursor, identity, len) + pending_start(tail),
        fingerprint: identity,
    }
}

impl View for GamelogCursor {
    type V = CursorView;

    closed spec fn view(&self) -> CursorView {
        CursorView {
            path: self.path@,
            byte_offset: self.byte_offset as nat,
            fingerprint: self.fingerprint,
        }
    }
}

impl GamelogCursor {
    /// A cursor at `byte_offset` of the file known by `fingerprint`.
    pub fn new(path: String, fingerprint: u64, byte_offset: u64) -> (cursor: GamelogCursor)
        ensures
            cursor@ == (CursorView { path: path@, byte_offset: byte_offset as nat, fingerprint }),
    {
        GamelogCursor { path, byte_offset, fingerprint }
    }

    /// The path of the file.
    pub fn path(&self) -> (path: &String)
        ensures
            path@ == self@.path,
    {
        &self.path
    }

    /// How many bytes of the file have been consumed.
    pub fn byte_offset(&self) -> (offset: u64)
        ensures
            offset == self@.byte_offset,
    {
        self.byte_offset
    }

    /// The identity of the file the offset belongs to.
    pub fn fingerprint(&self) -> (fingerprint: u64)
        ensures
            fingerprint == self@.fingerprint,
    {
        self.fingerprint
    }

    /// Where to read from, given the file's identity and length now: the
    /// cursor's offset, or 0 when the file was replaced or has shrunk.
    pub fn resume_offset(&self, identity: u64, len: u64) -> (from: u64)
        ensures
            from == resume_from(self@, identity, len),
            from <= len,
    {
        if identity != self.fingerprint || len < self.byte_offset {
            0
        } else {
            self.byte_offset
        }
    }

    /// Takes one look at the file and yields its new complete lines.
    ///
    /// Without a snapshot, or with one whose tail is not as long as the file
    /// beyond the resume offset, the file counts as unavailable and the
    /// cursor stays as it was. Otherwise the complete lines of the tail come
    /// back, the cursor moves just past the last newline, and an unterminated
    /// remainder is left in the file for a later poll.
    pub fn poll(&mut self, snapshot: Option<&Snapshot>) -> (polled: Polled)
        ensures
            match snapshot {
                Some(s) if consistent(old(self)@, s.identity, s.len, s.tail@) => {
                    &&& polled matches Polled::Lines(lines)
                    &&& contents(lines@) == complete_lines(s.tail@)
                    &&& final(self)@ == advanced(old(self)@, s.identity, s.len, s.tail@)
                    &&& final(self)@.byte_offset <= s.len
                },
                _ => polled is Unavailable && final(self)@ == old(self)@,
            },
    {
        match snapshot {
            None => Polled::Unavailable,
            Some(s) => {
                let from = self.resume_offset(s.identity, s.len);
                if s.tail.len() as u64 != s.len - from {
                    return Polled::Unavailable;
                }
                let (lines, consumed) = split_complete(s.tail.as_slice());
                self.byte_offset = from + consumed as u64;
                self.fingerprint = s.identity;
                Polled::Lines(lines)
            },
        }
    }
}

/// Truncating a byte string at its remainder changes neither its complete
/// lines nor where they end.
pub proof fn lemma_complete_lines_without_pending(s: Seq<u8>)
    ensures
        pending_start(s) <= s.len(),
        complete_lines(s.subrange(0, pending_start(s) as int)) == complete_lines(s),
        pending_start(s.subrange(0, pending_start(s) as int)) == pending_start(s),
    decreases s.len(),
{
    lemma_pending_start_bound(s);
    if s.len() == 0 {
        assert(s.subrange(0, 0) =~= s);
    } else if s.last() == crate::text::NEWLINE {
        assert(s.subrange(0, s.len() as int) =~= s);
    } else {
        let head = s.drop_last();
        lemma_complete_lines_without_pending(head);
        let p = pending_start(head) as int;
        assert(s.subrange(0, p) =~= head.subrange(0, p));
    }
}

/// Two polls of a file that only grew hand out, between them, exactly the
/// complete lines that lie after the first cursor: no line twice, none
/// skipped, and the cursor ends where a single poll of the grown file would
/// have put it.
pub proof fn lemma_successive_polls(
    cursor: CursorView,
    identity: u64,
    earlier: Seq<u8>,
    later: Seq<u8>,
)
    requires
        cursor.fingerprint == identity,
        cursor.byte_offset <= earlier.len() <= later.len() <= u64::MAX,
        later.subrange(0, earlier.len() as int) == earlier,
    ensures
        ({
            let from = cursor.byte_offset as int;
            let first_tail = earlier.subrange(from, earlier.len() as int);
            let middle = advanced(cursor, identity, earlier.len() as u64, first_tail);
            let second_tail = later.subrange(middle.byte_offset as int, later.len() as int);
            let last = advanced(middle, identity, later.len() as u64, second_tail);
            let whole_tail = later.subrange(from, later.len() as int);
            &&& !rotated(middle, identity, later.len() as u64)
            &&& complete_lines(first_tail) + complete_lines(second_tail) == complete_lines(
                whole_tail,
            )
            &&& last == advanced(cursor, identity, later.len() as u64, whole_tail)
        }),
{
    let from = cursor.byte_offset as int;
    let first_tail = earlier.subrange(from, earlier.len() as int);
    let middle = advanced(cursor, identity, earlier.len() as u64, first_tail);
    lemma_complete_lines_without_pending(first_tail);
    let done = first_tail.subrange(0, pending_start(first_tail) as int);
    let second_tail = later.subrange(middle.byte_offset as int, later.len() as int);
    let whole_tail = later.subrange(from, later.len() as int);
    assert(whole_tail =~= done + second_tail) by {
        assert forall|i: int| 0 <= i < done.len() implies whole_tail[i] == done[i] by {
            assert(earlier[from + i] == later.subrange(0, earlier.len() as int)[from + i]);
        }
    }
    lemma_complete_lines_append(done, second_tail);
}

} // verus!
