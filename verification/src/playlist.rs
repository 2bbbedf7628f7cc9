//! The files of a directory that are played, one after the other.

use crate::video::Outcome;
use vstd::prelude::*;

verus! {

/// No more than this many files of a directory are played.
pub const MAX_FILES: usize = 5;

/// Length of an 8.3 file name as a directory stores it: eight bytes of
/// base name and three of extension, each padded with spaces.
pub const NAME_LEN: usize = 11;

/// Whether `a` comes before `b`, or is `b`, in the order of their bytes
/// from index `i` on.
pub open spec fn le_from(a: Seq<u8>, b: Seq<u8>, i: int) -> bool
    decreases 11 - i,
{
    if i >= 11 {
        true
    } else if a[i] != b[i] {
        a[i] < b[i]
    } else {
        le_from(a, b, i + 1)
    }
}

/// Whether the name `a` comes before the name `b`, or is `b`: names are
/// ordered by their first byte, names with the same first byte by their
/// second, and so on.
pub open spec fn name_le(a: Seq<u8>, b: Seq<u8>) -> bool {
    le_from(a, b, 0)
}

/// Of two names, one comes before the other.
pub proof fn lemma_le_total(a: Seq<u8>, b: Seq<u8>, i: int)
    requires
        0 <= i,
    ensures
        le_from(a, b, i) || le_from(b, a, i),
    decreases 11 - i,
{
    if i < 11 && a[i] == b[i] {
        lemma_le_total(a, b, i + 1);
    }
}

/// A name that comes before a second, which comes before a third, comes
/// before the third.
pub proof fn lemma_le_transitive(a: Seq<u8>, b: Seq<u8>, c: Seq<u8>, i: int)
    requires
        0 <= i,
        le_from(a, b, i),
        le_from(b, c, i),
    ensures
        le_from(a, c, i),
    decreases 11 - i,
{
    if i < 11 && a[i] == b[i] && b[i] == c[i] {
        lemma_le_transitive(a, b, c, i + 1);
    }
}

/// Whether every name comes before the names behind it.
pub open spec fn sorted(names: Seq<[u8; 11]>) -> bool {
    forall|p: int, q: int| 0 <= p < q < names.len() ==> name_le(names[p]@, names[q]@)
}

/// The extension of a name: its last three bytes up to the first space.
pub open spec fn extension(name: Seq<u8>) -> Seq<u8> {
    if name[8] == 0x20 {
        Seq::empty()
    } else if name[9] == 0x20 {
        seq![name[8]]
    } else if name[10] == 0x20 {
        seq![name[8], name[9]]
    } else {
        seq![name[8], name[9], name[10]]
    }
}

/// Whether the name `a` comes before the name `b`, or is `b`.
pub fn name_before(a: &[u8; 11], b: &[u8; 11]) -> (r: bool)
    ensures
        r == name_le(a@, b@),
{
    let mut i: usize = 0;
    while i < 11
        invariant
            i <= 11,
            name_le(a@, b@) == le_from(a@, b@, i as int),
        decreases 11 - i,
    {
        if a[i] != b[i] {
            return a[i] < b[i];
        }
        i += 1;
    }
    true
}

/// What follows a file's playback.
#[derive(Clone, Copy, Debug, PartialEq, Eq, Structural)]
pub enum Next {
    /// Play the next file of the list.
    NextFile,
    /// Show what went wrong and stop for good.
    Halt,
}

/// What follows a file's playback, by how it ended: a file that ended,
/// was cancelled or could not be read or decoded gives way to the next
/// one; a display that failed, or a misuse, stops everything.
pub open spec fn spec_after(outcome: Outcome) -> Next {
    match outcome {
        Outcome::EndOfStream | Outcome::Cancelled | Outcome::Abandoned | Outcome::ReadFailed => {
            Next::NextFile
        },
        Outcome::DisplayFailed | Outcome::Misuse => Next::Halt,
    }
}

pub fn after(outcome: Outcome) -> (next: Next)
    ensures
        next == spec_after(outcome),
{
    match outcome {
        Outcome::EndOfStream | Outcome::Cancelled | Outcome::Abandoned | Outcome::ReadFailed => {
            Next::NextFile
        },
        Outcome::DisplayFailed | Outcome::Misuse => Next::Halt,
    }
}

/// The files with one extension among the first entries of a directory,
/// in the order of their names, played round and round.
pub struct Playlist {
    suffix: [u8; 3],
    names: Vec<[u8; 11]>,
    cursor: usize,
}

impl Playlist {
    /// The names on the list, in the order in which they are played.
    pub closed spec fn names(&self) -> Seq<[u8; 11]> {
        self.names@
    }

    /// The extension that the files on the list have.
    pub closed spec fn suffix(&self) -> Seq<u8> {
        self.suffix@
    }

    /// The index of the name that is played next.
    pub closed spec fn cursor(&self) -> int {
        self.cursor as int
    }

    pub closed spec fn wf(&self) -> bool {
        &&& self.names@.len() <= MAX_FILES
        &&& sorted(self.names@)
        &&& (self.cursor < self.names@.len() || self.cursor == 0)
    }

    /// The list is never longer than it may be, its names are in order,
    /// and the name to play next is one of them.
    pub proof fn lemma_wf(&self)
        requires
            self.wf(),
        ensures
            self.names().len() <= MAX_FILES,
            sorted(self.names()),
            0 <= self.cursor(),
            self.cursor() < self.names().len() || self.cursor() == 0,
    {
    }

    /// Whether an entry is taken onto the list: it is a file, it has the
    /// list's extension, and the list is not full.
    pub open spec fn takes(&self, name: Seq<u8>, is_directory: bool) -> bool {
        &&& self.names().len() < MAX_FILES
        &&& !is_directory
        &&& extension(name) == self.suffix()
    }

    /// An empty list for files with the extension `suffix`.
    pub fn new(suffix: [u8; 3]) -> (list: Self)
        ensures
            list.wf(),
            list.names().len() == 0,
            list.suffix() == suffix@,
            list.cursor() == 0,
    {
        Playlist { suffix, names: Vec::new(), cursor: 0 }
    }

    /// The number of names on the list.
    pub fn len(&self) -> (n: usize)
        ensures
            n == self.names().len(),
    {
        self.names.len()
    }

    /// Looks at one directory entry and puts it in its place on the list
    /// if the list takes it. Playback starts over at the first name.
    pub fn offer(&mut self, name: [u8; 11], is_directory: bool) -> (taken: bool)
        requires
            old(self).wf(),
        ensures
            final(self).wf(),
            final(self).suffix() == old(self).suffix(),
            taken == old(self).takes(name@, is_directory),
            taken ==> {
                &&& final(self).names().to_multiset() == old(self).names().to_multiset().insert(
                    name,
                )
                &&& final(self).names().len() == old(self).names().len() + 1
                &&& final(self).cursor() == 0
            },
            !taken ==> *final(self) == *old(self),
    {
        if self.names.len() >= MAX_FILES || is_directory {
            return false;
        }
        let fits = name[8] == self.suffix[0] && name[9] == self.suffix[1] && name[10]
            == self.suffix[2] && name[8] != 0x20 && name[9] != 0x20 && name[10] != 0x20;
        proof {
            if fits {
                assert(extension(name@) =~= self.suffix@);
            } else if extension(name@) == self.suffix@ {
                assert(extension(name@).len() == 3);
                assert(extension(name@)[0] == name@[8]);
                assert(extension(name@)[1] == name@[9]);
                assert(extension(name@)[2] == name@[10]);
            }
        }
        if !fits {
            return false;
        }
        let mut at: usize = 0;
        while at < self.names.len() && name_before(&self.names[at], &name)
            invariant
                at <= self.names@.len(),
                self.names@ == old(self).names@,
                forall|p: int| 0 <= p < at ==> name_le(#[trigger] self.names@[p]@, name@),
            decreases self.names@.len() - at,
        {
            at += 1;
        }
        let ghost before = self.names@;
        proof {
            vstd::seq_lib::to_multiset_insert(before, at as int, name);
            assert forall|q: int| at <= q < before.len() implies name_le(
                name@,
                #[trigger] before[q]@,
            ) by {
                lemma_le_total(before[at as int]@, name@, 0);
                if q > at {
                    assert(name_le(before[at as int]@, before[q]@));
                    lemma_le_transitive(name@, before[at as int]@, before[q]@, 0);
                }
            }
        }
        self.names.insert(at, name);
        self.cursor = 0;
        proof {
            assert forall|p: int, q: int| 0 <= p < q < self.names@.len() implies name_le(
                self.names@[p]@,
                self.names@[q]@,
            ) by {
                if q < at {
                    assert(self.names@[p] == before[p] && self.names@[q] == before[q]);
                } else if q == at {
                    assert(self.names@[p] == before[p]);
                } else if p < at {
                    assert(self.names@[p] == before[p] && self.names@[q] == before[q - 1]);
                } else if p == at {
                    assert(self.names@[q] == before[q - 1]);
                } else {
                    assert(self.names@[p] == before[p - 1] && self.names@[q] == before[q - 1]);
                }
            }
        }
        true
    }

    /// The name of the file to play now; the one after it is next, and
    /// the first one follows the last. None where the list is empty.
    pub fn next(&mut self) -> (name: Option<[u8; 11]>)
        requires
            old(self).wf(),
        ensures
            final(self).wf(),
            final(self).names() == old(self).names(),
            final(self).suffix() == old(self).suffix(),
            match name {
                Some(n) => {
                    &&& old(self).names().len() > 0
                    &&& n == old(self).names()[old(self).cursor()]
                    &&& final(self).cursor() == (old(self).cursor() + 1) % (old(
                        self,
                    ).names().len() as int)
                },
                None => old(self).names().len() == 0 && final(self).cursor() == 0,
            },
    {
        if self.names.len() == 0 {
            return None;
        }
        let name = self.names[self.cursor];
        proof {
            lemma_round(self.names@.len() as int, self.cursor as int, 1);
            lemma_step(self.names@.len() as int, self.cursor as int);
        }
        self.cursor = if self.cursor + 1 == self.names.len() {
            0
        } else {
            self.cursor + 1
        };
        Some(name)
    }
}

/// One step through a list leads to the name behind, or from the last
/// name to the first.
pub proof fn lemma_step(len: int, cursor: int)
    requires
        0 <= cursor < len,
    ensures
        (cursor + 1) % len == if cursor + 1 == len {
            0
        } else {
            cursor + 1
        },
{
    if cursor + 1 == len {
        assert(len % len == 0) by (nonlinear_arith)
            requires
                0 < len,
        ;
    } else {
        assert((cursor + 1) % len == cursor + 1) by (nonlinear_arith)
            requires
                0 <= cursor + 1 < len,
        ;
    }
}

/// Playing a whole list through comes back to where it began: from the
/// name at `cursor`, as many steps as the list is long lead to that name
/// again, and fewer steps lead elsewhere.
pub proof fn lemma_round(len: int, cursor: int, steps: int)
    requires
        0 <= cursor < len,
        0 <= steps <= len,
    ensures
        (cursor + len) % len == cursor,
        0 < steps < len ==> (cursor + steps) % len != cursor,
        0 <= (cursor + steps) % len < len,
{
    assert((cursor + len) % len == cursor) by (nonlinear_arith)
        requires
            0 <= cursor < len,
    ;
    if cursor + steps < len {
        assert((cursor + steps) % len == cursor + steps) by (nonlinear_arith)
            requires
                0 <= cursor + steps < len,
        ;
    } else {
        assert((cursor + steps) % len == cursor + steps - len) by (nonlinear_arith)
            requires
                len <= cursor + steps < 2 * len,
        ;
    }
}

} // verus!
