//! Byte strings: substring search, ASCII case folding and line splitting.

use vstd::prelude::*;

verus! {

/// The byte that terminates a line.
pub const NEWLINE: u8 = 10;

/// `needle` stands in `hay` at position `at`.
pub open spec fn occurs_at(hay: Seq<u8>, needle: Seq<u8>, at: int) -> bool {
    &&& 0 <= at
    &&& at + needle.len() <= hay.len()
    &&& hay.subrange(at, at + needle.len()) == needle
}

/// `needle` stands somewhere in `hay`.
pub open spec fn contains_bytes(hay: Seq<u8>, needle: Seq<u8>) -> bool {
    exists|at: int| occurs_at(hay, needle, at)
}

/// An ASCII capital letter becomes its small letter; any other byte stays.
pub open spec fn lower_byte(b: u8) -> u8 {
    if 65 <= b <= 90 {
        (b + 32) as u8
    } else {
        b
    }
}

/// `s` with every ASCII capital letter made small.
pub open spec fn lower(s: Seq<u8>) -> Seq<u8> {
    Seq::new(s.len(), |i: int| lower_byte(s[i]))
}

/// `needle` stands somewhere in `hay` when ASCII case is disregarded.
pub open spec fn contains_ignoring_case(hay: Seq<u8>, needle: Seq<u8>) -> bool {
    contains_bytes(lower(hay), lower(needle))
}

/// The contents of each vector, in order.
pub open spec fn contents(rows: Seq<Vec<u8>>) -> Seq<Seq<u8>> {
    Seq::new(rows.len(), |i: int| rows[i]@)
}

/// Tests whether `needle` stands in `hay` at position `at`.
pub fn matches_at(hay: &[u8], needle: &[u8], at: usize) -> (found: bool)
    ensures
        found == occurs_at(hay@, needle@, at as int),
{
    if at > hay.len() || needle.len() > hay.len() - at {
        return false;
    }
    let mut k: usize = 0;
    while k < needle.len()
        invariant
            k <= needle.len(),
            at + needle.len() <= hay.len(),
            forall|j: int| 0 <= j < k ==> hay@[at + j] == needle@[j],
        decreases needle.len() - k,
    {
        if hay[at + k] != needle[k] {
            proof {
                let window = hay@.subrange(at as int, at + needle.len());
                assert(window[k as int] == hay@[at + k]);
            }
            return false;
        }
        k += 1;
    }
    assert(hay@.subrange(at as int, at + needle.len()) =~= needle@);
    true
}

/// Tests whether `needle` stands somewhere in `hay`. The empty needle stands
/// in every byte string.
pub fn contains(hay: &[u8], needle: &[u8]) -> (found: bool)
    ensures
        found == contains_bytes(hay@, needle@),
{
    if needle.len() > hay.len() {
        assert forall|at: int| !occurs_at(hay@, needle@, at) by {}
        return false;
    }
    let last: usize = hay.len() - needle.len();
    let mut at: usize = 0;
    loop
        invariant
            at <= last,
            last == hay.len() - needle.len(),
            forall|p: int| 0 <= p < at ==> !occurs_at(hay@, needle@, p),
        decreases last - at,
    {
        if matches_at(hay, needle, at) {
            return true;
        }
        if at == last {
            assert forall|p: int| !occurs_at(hay@, needle@, p) by {}
            return false;
        }
        at += 1;
    }
}

/// Copies `s` with every ASCII capital letter made small.
pub fn to_lower(s: &[u8]) -> (out: Vec<u8>)
    ensures
        out@ == lower(s@),
{
    let mut out: Vec<u8> = Vec::new();
    let mut i: usize = 0;
    while i < s.len()
        invariant
            i <= s.len(),
            out@.len() == i,
            forall|j: int| 0 <= j < i ==> out@[j] == lower_byte(s@[j]),
        decreases s.len() - i,
    {
        let b: u8 = s[i];
        if 65 <= b && b <= 90 {
            out.push(b + 32);
        } else {
            out.push(b);
        }
        i += 1;
    }
    assert(out@ =~= lower(s@));
    out
}

/// Tests whether `needle` stands somewhere in `hay` when ASCII case is
/// disregarded.
pub fn contains_folded(hay: &[u8], needle: &[u8]) -> (found: bool)
    ensures
        found == contains_ignoring_case(hay@, needle@),
{
    let h = to_lower(hay);
    let n = to_lower(needle);
    contains(h.as_slice(), n.as_slice())
}

/// Copies the bytes of `s` from `from` up to `to`.
pub fn copy_range(s: &[u8], from: usize, to: usize) -> (out: Vec<u8>)
    requires
        from <= to <= s.len(),
    ensures
        out@ == s@.subrange(from as int, to as int),
{
    let mut out: Vec<u8> = Vec::new();
    let mut i: usize = from;
    while i < to
        invariant
            from <= i <= to <= s.len(),
            out@ == s@.subrange(from as int, i as int),
        decreases to - i,
    {
        out.push(s[i]);
        assert(out@ =~= s@.subrange(from as int, i + 1));
        i += 1;
    }
    out
}

/// Where the unterminated remainder of `s` begins: just after its last
/// newline, or at 0 when it holds none.
pub open spec fn pending_start(s: Seq<u8>) -> nat
    decreases s.len(),
{
    if s.len() == 0 {
        0
    } else if s.last() == NEWLINE {
        s.len()
    } else {
        pending_start(s.drop_last())
    }
}

/// The lines of `s` that a newline terminates, in order and without their
/// newlines. Bytes after the last newline belong to no complete line.
pub open spec fn complete_lines(s: Seq<u8>) -> Seq<Seq<u8>>
    decreases s.len(),
{
    if s.len() == 0 {
        Seq::empty()
    } else {
        let head = s.drop_last();
        if s.last() == NEWLINE {
            complete_lines(head).push(head.subrange(pending_start(head) as int, head.len() as int))
        } else {
            complete_lines(head)
        }
    }
}

/// The bytes of `s` after its last newline.
pub open spec fn pending(s: Seq<u8>) -> Seq<u8> {
    s.subrange(pending_start(s) as int, s.len() as int)
}

/// Every line followed by a newline, one after the other.
pub open spec fn join_lines(lines: Seq<Seq<u8>>) -> Seq<u8>
    decreases lines.len(),
{
    if lines.len() == 0 {
        Seq::empty()
    } else {
        join_lines(lines.drop_last()) + lines.last().push(NEWLINE)
    }
}

/// The remainder begins inside `s`.
pub proof fn lemma_pending_start_bound(s: Seq<u8>)
    ensures
        pending_start(s) <= s.len(),
    decreases s.len(),
{
    if s.len() > 0 && s.last() != NEWLINE {
        lemma_pending_start_bound(s.drop_last());
    }
}

/// Splitting loses nothing and invents nothing: the complete lines, each with
/// its newline put back, are the bytes of `s` before the remainder; no line
/// holds a newline, and neither does the remainder.
pub proof fn lemma_complete_lines_rejoin(s: Seq<u8>)
    ensures
        pending_start(s) <= s.len(),
        join_lines(complete_lines(s)) == s.subrange(0, pending_start(s) as int),
        forall|i: int, j: int|
            0 <= i < complete_lines(s).len() && 0 <= j < complete_lines(s)[i].len()
                ==> complete_lines(s)[i][j] != NEWLINE,
        forall|j: int| pending_start(s) <= j < s.len() ==> s[j] != NEWLINE,
    decreases s.len(),
{
    if s.len() == 0 {
        assert(join_lines(complete_lines(s)) =~= s.subrange(0, 0));
    } else {
        let head = s.drop_last();
        lemma_complete_lines_rejoin(head);
        let p = pending_start(head) as int;
        if s.last() == NEWLINE {
            let line = head.subrange(p, head.len() as int);
            let lines = complete_lines(s);
            assert(lines.drop_last() =~= complete_lines(head));
            assert(lines.last() == line);
            assert(join_lines(lines) == join_lines(complete_lines(head)) + line.push(NEWLINE));
            assert(head.subrange(0, p) + line.push(NEWLINE) =~= s.subrange(0, s.len() as int));
            assert forall|i: int, j: int|
                0 <= i < lines.len() && 0 <= j < lines[i].len() implies lines[i][j] != NEWLINE by {
                if i < lines.len() - 1 {
                    assert(lines[i] == complete_lines(head)[i]);
                } else {
                    assert(lines[i][j] == head[p + j]);
                }
            }
        } else {
            assert(head.subrange(0, p) =~= s.subrange(0, p));
            assert forall|j: int| pending_start(s) <= j < s.len() implies s[j] != NEWLINE by {
                if j < head.len() {
                    assert(s[j] == head[j]);
                }
            }
        }
    }
}

/// Bytes appended after a line boundary split by themselves: when `a` ends
/// where a line ends, the lines of `a + b` are those of `a` followed by those
/// of `b`, and the remainder of `a + b` is that of `b`.
pub proof fn lemma_complete_lines_append(a: Seq<u8>, b: Seq<u8>)
    requires
        pending_start(a) == a.len(),
    ensures
        complete_lines(a + b) == complete_lines(a) + complete_lines(b),
        pending_start(a + b) == a.len() + pending_start(b),
    decreases b.len(),
{
    if b.len() == 0 {
        assert(a + b =~= a);
        assert(complete_lines(a) + complete_lines(b) =~= complete_lines(a));
    } else {
        let whole = a + b;
        let head = b.drop_last();
        lemma_complete_lines_append(a, head);
        lemma_pending_start_bound(head);
        assert(whole.drop_last() =~= a + head);
        assert(whole.last() == b.last());
        if b.last() == NEWLINE {
            let p = pending_start(head) as int;
            assert((a + head).subrange(a.len() + p, (a + head).len() as int) =~= head.subrange(
                p,
                head.len() as int,
            ));
            assert(complete_lines(whole) =~= complete_lines(a) + complete_lines(b));
        }
    }
}

/// Splits `s` into its complete lines and says where the unterminated
/// remainder begins.
pub fn split_complete(s: &[u8]) -> (r: (Vec<Vec<u8>>, usize))
    ensures
        contents(r.0@) == complete_lines(s@),
        r.1 == pending_start(s@),
        r.1 <= s.len(),
{
    let mut lines: Vec<Vec<u8>> = Vec::new();
    let mut start: usize = 0;
    let mut i: usize = 0;
    assert(s@.subrange(0, 0) =~= Seq::<u8>::empty());
    assert(contents(lines@) =~= complete_lines(s@.subrange(0, 0)));
    while i < s.len()
        invariant
            start <= i <= s.len(),
            contents(lines@) == complete_lines(s@.subrange(0, i as int)),
            start == pending_start(s@.subrange(0, i as int)),
        decreases s.len() - i,
    {
        let ghost before = s@.subrange(0, i as int);
        let ghost after = s@.subrange(0, i + 1);
        assert(after.drop_last() =~= before);
        assert(after.last() == s@[i as int]);
        if s[i] == NEWLINE {
            let line = copy_range(s, start, i);
            assert(line@ =~= before.subrange(start as int, before.len() as int));
            let ghost old_lines = lines@;
            lines.push(line);
            assert(contents(lines@) =~= contents(old_lines).push(line@));
            start = i + 1;
        }
        i += 1;
    }
    assert(s@.subrange(0, i as int) =~= s@);
    (lines, start)
}

} // verus!
