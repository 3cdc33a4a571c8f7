//! The ignore filter: literal substrings that keep a log line away from the
//! rule matcher.

use vstd::prelude::*;
use crate::error::LoadError;
use crate::text::{complete_lines, contains, contains_bytes, contents, pending, split_complete};
use crate::text::copy_range;

verus! {

/// What reading a file gave.
#[derive(Debug)]
pub enum FileRead {
    /// There is no file at the path.
    Missing,
    /// The file is there but could not be read this time.
    Unavailable,
    /// The bytes of the file.
    Content(Vec<u8>),
}

/// Every line of `content`: its complete lines, then its unterminated
/// remainder if that is not empty.
pub open spec fn all_lines(content: Seq<u8>) -> Seq<Seq<u8>> {
    if pending(content).len() == 0 {
        complete_lines(content)
    } else {
        complete_lines(content).push(pending(content))
    }
}

/// The entries that `lines` give: each line that is not empty, at its first
/// occurrence only, in order.
pub open spec fn entries_of(lines: Seq<Seq<u8>>) -> Seq<Seq<u8>>
    decreases lines.len(),
{
    if lines.len() == 0 {
        Seq::empty()
    } else {
        let before = entries_of(lines.drop_last());
        let line = lines.last();
        if line.len() == 0 || before.contains(line) {
            before
        } else {
            before.push(line)
        }
    }
}

/// The entries form an ordered set: none is empty, none comes twice, and
/// every line that is not empty is among them.
pub proof fn lemma_entries_form_a_set(lines: Seq<Seq<u8>>)
    ensures
        forall|i: int| 0 <= i < entries_of(lines).len() ==> (#[trigger] entries_of(lines)[i]).len() > 0,
        forall|i: int, j: int|
            0 <= i < j < entries_of(lines).len() ==> entries_of(lines)[i] != entries_of(lines)[j],
        forall|k: int|
            0 <= k < lines.len() && (#[trigger] lines[k]).len() > 0 ==> entries_of(lines).contains(
                lines[k],
            ),
        forall|i: int|
            0 <= i < entries_of(lines).len() ==> lines.contains(#[trigger] entries_of(lines)[i]),
    decreases lines.len(),
{
    if lines.len() > 0 {
        let head = lines.drop_last();
        let before = entries_of(head);
        let after = entries_of(lines);
        lemma_entries_form_a_set(head);
        assert forall|k: int| 0 <= k < lines.len() && (#[trigger] lines[k]).len() > 0 implies after.contains(
            lines[k],
        ) by {
            if k < head.len() {
                assert(head[k] == lines[k]);
                let at = choose|at: int| 0 <= at < before.len() && before[at] == lines[k];
                assert(after[at] == lines[k]);
            } else if before.contains(lines[k]) {
                let at = choose|at: int| 0 <= at < before.len() && before[at] == lines[k];
                assert(after[at] == lines[k]);
            } else {
                assert(after[after.len() - 1] == lines[k]);
            }
        }
        assert forall|i: int| 0 <= i < after.len() implies lines.contains(#[trigger] after[i]) by {
            if i < before.len() {
                assert(after[i] == before[i]);
                let at = choose|at: int| 0 <= at < head.len() && head[at] == before[i];
                assert(lines[at] == after[i]);
            } else {
                assert(lines[lines.len() - 1] == after[i]);
            }
        }
        assert forall|i: int, j: int| 0 <= i < j < after.len() implies after[i] != after[j] by {
            assert(after[i] == before[i]);
            if j < before.len() {
                assert(after[j] == before[j]);
            }
        }
    }
}

/// Some entry stands in `line`, byte for byte.
pub open spec fn any_entry_in(entries: Seq<Seq<u8>>, line: Seq<u8>) -> bool {
    exists|i: int| 0 <= i < entries.len() && contains_bytes(line, #[trigger] entries[i])
}

/// An ordered set of literal substrings. A line that holds one of them is
/// dropped before the rules see it.
pub struct IgnoreList {
    entries: Vec<Vec<u8>>,
}

impl View for IgnoreList {
    type V = Seq<Seq<u8>>;

    closed spec fn view(&self) -> Seq<Seq<u8>> {
        contents(self.entries@)
    }
}

fn holds_line(rows: &Vec<Vec<u8>>, line: &[u8]) -> (found: bool)
    ensures
        found == contents(rows@).contains(line@),
{
    let mut i: usize = 0;
    while i < rows.len()
        invariant
            i <= rows.len(),
            forall|j: int| 0 <= j < i ==> contents(rows@)[j] != line@,
        decreases rows.len() - i,
    {
        if same_bytes(rows[i].as_slice(), line) {
            assert(contents(rows@)[i as int] == line@);
            return true;
        }
        i += 1;
    }
    false
}

fn same_bytes(a: &[u8], b: &[u8]) -> (same: bool)
    ensures
        same == (a@ == b@),
{
    if a.len() != b.len() {
        return false;
    }
    let mut i: usize = 0;
    while i < a.len()
        invariant
            i <= a.len(),
            a.len() == b.len(),
            forall|j: int| 0 <= j < i ==> a@[j] == b@[j],
        decreases a.len() - i,
    {
        if a[i] != b[i] {
            return false;
        }
        i += 1;
    }
    assert(a@ =~= b@);
    true
}

impl IgnoreList {
    /// The filter that drops nothing.
    pub fn empty() -> (list: IgnoreList)
        ensures
            list@ == Seq::<Seq<u8>>::empty(),
    {
        let list = IgnoreList { entries: Vec::new() };
        assert(list@ =~= Seq::<Seq<u8>>::empty());
        list
    }

    /// Builds the filter from what reading the ignore-list file gave.
    ///
    /// A missing file gives the empty filter, and so does an empty one. A
    /// file that could not be read is the only failure. Otherwise every
    /// line of the file that is not empty is an entry, once, in file order.
    pub fn load(source: &FileRead) -> (loaded: Result<IgnoreList, LoadError>)
        ensures
            match *source {
                FileRead::Missing => loaded matches Ok(list) && list@ == Seq::<Seq<u8>>::empty(),
                FileRead::Unavailable => loaded == Err::<IgnoreList, LoadError>(
                    LoadError::Unavailable,
                ),
                FileRead::Content(bytes) => loaded matches Ok(list) && list@ == entries_of(
                    all_lines(bytes@),
                ),
            },
    {
        match source {
            FileRead::Missing => Ok(IgnoreList::empty()),
            FileRead::Unavailable => Err(LoadError::Unavailable),
            FileRead::Content(bytes) => {
                let (mut lines, start) = split_complete(bytes.as_slice());
                if start < bytes.len() {
                    let rest = copy_range(bytes.as_slice(), start, bytes.len());
                    let ghost before = lines@;
                    lines.push(rest);
                    assert(contents(lines@) =~= contents(before).push(rest@));
                }
                let ghost all = contents(lines@);
                assert(all == all_lines(bytes@));
                let mut entries: Vec<Vec<u8>> = Vec::new();
                let mut i: usize = 0;
                assert(all.subrange(0, 0) =~= Seq::<Seq<u8>>::empty());
                assert(contents(entries@) =~= entries_of(all.subrange(0, 0)));
                while i < lines.len()
                    invariant
                        i <= lines.len(),
                        all == contents(lines@),
                        contents(entries@) == entries_of(all.subrange(0, i as int)),
                    decreases lines.len() - i,
                {
                    let ghost upto = all.subrange(0, i + 1);
                    assert(upto.drop_last() =~= all.subrange(0, i as int));
                    assert(upto.last() == lines@[i as int]@);
                    if lines[i].len() > 0 && !holds_line(&entries, lines[i].as_slice()) {
                        let entry = copy_range(lines[i].as_slice(), 0, lines[i].len());
                        assert(entry@ =~= lines@[i as int]@);
                        let ghost before = entries@;
                        entries.push(entry);
                        assert(contents(entries@) =~= contents(before).push(entry@));
                    }
                    i += 1;
                }
                assert(all.subrange(0, i as int) =~= all);
                Ok(IgnoreList { entries })
            },
        }
    }

    /// How many entries the filter holds.
    pub fn len(&self) -> (n: usize)
        ensures
            n == self@.len(),
    {
        self.entries.len()
    }

    /// Tests whether `line` is to be dropped: whether some entry stands in it,
    /// byte for byte. The empty filter drops nothing.
    pub fn matches(&self, line: &[u8]) -> (dropped: bool)
        ensures
            dropped == any_entry_in(self@, line@),
    {
        let mut i: usize = 0;
        while i < self.entries.len()
            invariant
                i <= self.entries.len(),
                forall|j: int| 0 <= j < i ==> !contains_bytes(line@, #[trigger] self@[j]),
            decreases self.entries.len() - i,
        {
            if contains(line, self.entries[i].as_slice()) {
                assert(contains_bytes(line@, self@[i as int]));
                return true;
            }
            i += 1;
        }
        false
    }
}

} // verus!
