//! Seekable byte sources that the decoders read video files from.

use vstd::prelude::*;

verus! {

/// Where a seek is measured from.
#[derive(Clone, Copy, Debug, PartialEq, Eq, Structural)]
pub enum SeekFrom {
    Start(u64),
    End(i64),
    Current(i64),
}

/// The absolute offset a seek asks for, given where the source stands and
/// how long it is.
pub open spec fn seek_target(from: SeekFrom, position: int, len: int) -> int {
    match from {
        SeekFrom::Start(p) => p as int,
        SeekFrom::End(o) => len + o,
        SeekFrom::Current(o) => position + o,
    }
}

/// The bytes of `content` from `position` to its end; nothing when
/// `position` lies at or past the end.
pub open spec fn rest(content: Seq<u8>, position: int) -> Seq<u8> {
    if 0 <= position < content.len() {
        content.subrange(position, content.len() as int)
    } else {
        Seq::empty()
    }
}

/// `s` with `bytes` written over it from index `at` on.
pub open spec fn splice(s: Seq<u8>, at: int, bytes: Seq<u8>) -> Seq<u8> {
    s.take(at) + bytes + s.skip(at + bytes.len())
}

/// What a successful read of `n` bytes into `before[from..to]` does: it
/// copies the next `n` bytes of the source to `from` onwards and leaves
/// every other byte alone. It returns no bytes only when none were asked
/// for or none are left.
pub open spec fn read_effect(
    upcoming: Seq<u8>,
    before: Seq<u8>,
    from: int,
    to: int,
    n: int,
    after: Seq<u8>,
) -> bool {
    &&& 0 <= n <= to - from
    &&& n <= upcoming.len()
    &&& (n == 0 <==> (from == to || upcoming.len() == 0))
    &&& after == splice(before, from, upcoming.take(n))
}

/// Skipping bytes of what is left of a source is moving its position.
pub proof fn lemma_rest_skip(content: Seq<u8>, position: int, n: int)
    requires
        0 <= n <= rest(content, position).len(),
    ensures
        rest(content, position).skip(n) == rest(content, position + n),
{
    assert(rest(content, position).skip(n) =~= rest(content, position + n));
}

/// A read-only file-like object: a fixed sequence of bytes and a position
/// in it.
///
/// `read` and `seek` are what an implementation owes. A source that is
/// implemented in verified code, as [`MemorySource`] is, says what its
/// content and its position are and is held to that. A source in front
/// of a device cannot say so; it keeps the defaults below, and what is
/// proved of its users holds as far as the device behaves as a file
/// does.
pub trait ByteSource {
    type Error;

    /// Every byte of the file.
    open spec fn content(&self) -> Seq<u8> {
        Seq::empty()
    }

    /// The offset of the next byte to be read.
    open spec fn position(&self) -> int {
        0
    }

    /// Whether the source is in a state in which it can be read.
    open spec fn wf(&self) -> bool {
        true
    }

    /// Whether the source is known never to fail a read, nor a seek to an
    /// offset that exists.
    open spec fn infallible(&self) -> bool {
        false
    }

    /// Reads some bytes into `buf[from..to]`, starting at `from`, and
    /// reports how many. Zero means that the source is exhausted (or that
    /// the range is empty).
    fn read(&mut self, buf: &mut [u8], from: usize, to: usize) -> (r: Result<usize, Self::Error>)
        requires
            old(self).wf(),
            from <= to <= old(buf)@.len(),
        ensures
            final(self).wf(),
            final(self).content() == old(self).content(),
            final(self).infallible() == old(self).infallible(),
            final(buf)@.len() == old(buf)@.len(),
            final(buf)@.take(from as int) == old(buf)@.take(from as int),
            final(buf)@.skip(to as int) == old(buf)@.skip(to as int),
            old(self).infallible() ==> r is Ok,
            r matches Ok(n) ==> {
                &&& read_effect(
                    rest(old(self).content(), old(self).position()),
                    old(buf)@,
                    from as int,
                    to as int,
                    n as int,
                    final(buf)@,
                )
                &&& final(self).position() == old(self).position() + n
            },
    ;

    /// Moves the position and reports the new absolute offset.
    fn seek(&mut self, from: SeekFrom) -> (r: Result<u64, Self::Error>)
        requires
            old(self).wf(),
        ensures
            final(self).wf(),
            final(self).content() == old(self).content(),
            final(self).infallible() == old(self).infallible(),
            ({
                let target = seek_target(
                    from,
                    old(self).position(),
                    old(self).content().len() as int,
                );
                &&& (old(self).infallible() && 0 <= target <= u64::MAX ==> r is Ok)
                &&& (r matches Ok(p) ==> p == target && final(self).position() == target)
            }),
    ;
}

/// What an exact read of `n` bytes comes to when the source does not
/// fail: the bytes that were read and the bytes that are left, or nothing
/// where fewer than `n` bytes were left.
pub open spec fn exact_read(upcoming: Seq<u8>, n: int) -> Option<(Seq<u8>, Seq<u8>)> {
    if 0 <= n <= upcoming.len() {
        Some((upcoming.take(n), upcoming.skip(n)))
    } else {
        None
    }
}

/// An exact read of all that is left succeeds and leaves nothing, and
/// an exact read of anything after that comes to nothing.
pub proof fn lemma_exact_read_then_eof(upcoming: Seq<u8>, more: int)
    requires
        more > 0,
    ensures
        exact_read(upcoming, upcoming.len() as int) == Some((upcoming, Seq::<u8>::empty())),
        exact_read(Seq::<u8>::empty(), more) is None,
{
    assert(upcoming.take(upcoming.len() as int) =~= upcoming);
    assert(upcoming.skip(upcoming.len() as int) =~= Seq::<u8>::empty());
}

/// Why an exact read stopped short.
#[derive(Debug)]
pub enum ReadExactError<E> {
    /// The source ran out before the range was filled.
    UnexpectedEof,
    /// The source failed.
    Other(E),
}

/// Fills `buf[from..to]` from the source, reading as often as it takes.
///
/// Fails with `UnexpectedEof` exactly when the source holds fewer bytes
/// than the range is long; everything it did hold has then been copied.
pub fn read_exact<S: ByteSource>(source: &mut S, buf: &mut [u8], from: usize, to: usize) -> (r:
    Result<(), ReadExactError<S::Error>>)
    requires
        old(source).wf(),
        from <= to <= old(buf)@.len(),
    ensures
        final(source).wf(),
        final(source).content() == old(source).content(),
        final(source).infallible() == old(source).infallible(),
        final(buf)@.len() == old(buf)@.len(),
        old(source).infallible() ==> !(r is Err && r->Err_0 is Other),
        ({
            let upcoming = rest(old(source).content(), old(source).position());
            let left = rest(final(source).content(), final(source).position());
            match r {
                Ok(()) => exact_read(upcoming, to - from) == Some(
                    (final(buf)@.subrange(from as int, to as int), left),
                ),
                Err(ReadExactError::UnexpectedEof) => exact_read(upcoming, to - from) is None,
                Err(ReadExactError::Other(_)) => true,
            }
        }),
        ({
            let upcoming = rest(old(source).content(), old(source).position());
            match r {
                Ok(()) => {
                    &&& to - from <= upcoming.len()
                    &&& final(buf)@ == splice(old(buf)@, from as int, upcoming.take(to - from))
                    &&& final(source).position() == old(source).position() + (to - from)
                },
                Err(ReadExactError::UnexpectedEof) => {
                    &&& upcoming.len() < to - from
                    &&& final(buf)@ == splice(old(buf)@, from as int, upcoming)
                    &&& final(source).position() == old(source).position() + upcoming.len()
                },
                Err(ReadExactError::Other(_)) => true,
            }
        }),
{
    let ghost upcoming = rest(source.content(), source.position());
    let ghost start = source.position();
    proof {
        assert(buf@ =~= splice(buf@, from as int, upcoming.take(0)));
    }
    let mut at: usize = from;
    while at < to
        invariant
            from <= at <= to <= buf@.len(),
            buf@.len() == old(buf)@.len(),
            source.wf(),
            source.content() == old(source).content(),
            source.infallible() == old(source).infallible(),
            upcoming == rest(old(source).content(), old(source).position()),
            start == old(source).position(),
            at - from <= upcoming.len(),
            source.position() == start + (at - from),
            buf@ == splice(old(buf)@, from as int, upcoming.take(at - from)),
        decreases to - at,
    {
        let ghost before = buf@;
        proof {
            lemma_rest_skip(source.content(), start, at - from);
        }
        match source.read(buf, at, to) {
            Ok(n) => {
                if n == 0 {
                    proof {
                        assert(upcoming.take(at - from) =~= upcoming);
                    }
                    return Err(ReadExactError::UnexpectedEof);
                }
                proof {
                    let next = upcoming.skip(at - from).take(n as int);
                    assert(buf@ == splice(before, at as int, next));
                    assert(upcoming.take(at - from + n) =~= upcoming.take(at - from) + next);
                    assert(buf@ =~= splice(old(buf)@, from as int, upcoming.take(at - from + n)));
                }
                at = at + n;
            },
            Err(e) => {
                return Err(ReadExactError::Other(e));
            },
        }
    }
    proof {
        lemma_rest_skip(source.content(), start, to - from);
        assert(buf@.subrange(from as int, to as int) =~= upcoming.take(to - from));
    }
    Ok(())
}

/// The distance of a negative offset from zero.
fn magnitude(o: i64) -> (m: u64)
    requires
        o < 0,
    ensures
        m == -(o as int),
{
    if o == i64::MIN {
        0x8000_0000_0000_0000u64
    } else {
        (-o) as u64
    }
}

/// A count of seeks with one more seek, as far as can be counted.
pub open spec fn advanced_count(seeks: nat) -> nat {
    if seeks < usize::MAX {
        seeks + 1
    } else {
        seeks
    }
}

/// Why a [`MemorySource`] refused an operation.
#[derive(Clone, Copy, Debug, PartialEq, Eq, Structural)]
pub enum MemoryError {
    /// The seek target lies before the first byte or past what an offset
    /// can hold.
    OutOfRange,
    /// The source was built to fail and has used up its successful reads.
    Broken,
}

/// A byte source over bytes held in memory.
///
/// It hands out at most `chunk` bytes per read, so that a caller sees the
/// short reads of a real device, and it can be told to fail after a number
/// of reads.
pub struct MemorySource {
    data: Vec<u8>,
    pos: u64,
    chunk: usize,
    reads_left: Option<usize>,
    seeks: usize,
}

impl MemorySource {
    /// A source that hands out whatever is asked for and never fails.
    pub fn new(data: Vec<u8>) -> (s: Self)
        ensures
            s.wf(),
            s.content() == data@,
            s.position() == 0,
            s.infallible(),
            s.chunk() == usize::MAX,
            s.budget() is None,
            s.seeks() == 0,
    {
        MemorySource { data, pos: 0, chunk: usize::MAX, reads_left: None, seeks: 0 }
    }

    /// A source that never fails and hands out at most `chunk` bytes per
    /// read; a `chunk` of zero counts as one.
    pub fn with_chunk(data: Vec<u8>, chunk: usize) -> (s: Self)
        ensures
            s.wf(),
            s.content() == data@,
            s.position() == 0,
            s.infallible(),
            s.chunk() == if chunk == 0 {
                1
            } else {
                chunk
            },
            s.budget() is None,
            s.seeks() == 0,
    {
        let chunk: usize = if chunk == 0 { 1 } else { chunk };
        MemorySource { data, pos: 0, chunk, reads_left: None, seeks: 0 }
    }

    /// A source whose first `reads` reads succeed and whose later reads
    /// all fail with [`MemoryError::Broken`].
    pub fn failing_after(data: Vec<u8>, reads: usize) -> (s: Self)
        ensures
            s.wf(),
            s.content() == data@,
            s.position() == 0,
            !s.infallible(),
            s.chunk() == usize::MAX,
            s.budget() == Some(reads as nat),
            s.seeks() == 0,
    {
        MemorySource { data, pos: 0, chunk: usize::MAX, reads_left: Some(reads), seeks: 0 }
    }

    /// The most bytes that one read hands out.
    pub closed spec fn chunk(&self) -> nat {
        self.chunk as nat
    }

    /// How many more reads succeed, where the source was built to fail.
    pub closed spec fn budget(&self) -> Option<nat> {
        match self.reads_left {
            Some(k) => Some(k as nat),
            None => None,
        }
    }

    /// How many seeks the source has done, as far as can be counted.
    pub closed spec fn seeks(&self) -> nat {
        self.seeks as nat
    }

    /// How many seeks the source has done, as far as can be counted.
    pub fn seek_count(&self) -> (n: usize)
        ensures
            n == self.seeks(),
    {
        self.seeks
    }

    /// The offset of the next byte to be read.
    pub fn offset(&self) -> (p: u64)
        ensures
            p == self.position(),
    {
        self.pos
    }
}

impl ByteSource for MemorySource {
    type Error = MemoryError;

    closed spec fn content(&self) -> Seq<u8> {
        self.data@
    }

    closed spec fn position(&self) -> int {
        self.pos as int
    }

    closed spec fn wf(&self) -> bool {
        self.chunk >= 1
    }

    closed spec fn infallible(&self) -> bool {
        self.reads_left is None
    }

    /// Hands out as many bytes as are asked for, as are left, and as one
    /// read may hand out, whichever is least; or fails where the source
    /// has used up the reads it was built to succeed in.
    fn read(&mut self, buf: &mut [u8], from: usize, to: usize) -> (r: Result<usize, MemoryError>)
        ensures
            final(self).chunk() == old(self).chunk(),
            final(self).seeks() == old(self).seeks(),
            match r {
                Ok(n) => {
                    &&& old(self).budget() != Some(0nat)
                    &&& n == crate::reader::min_len(
                        crate::reader::min_len(
                            to - from,
                            rest(old(self).content(), old(self).position()).len() as int,
                        ),
                        old(self).chunk() as int,
                    )
                    &&& final(self).budget() == match old(self).budget() {
                        Some(k) => Some((k - 1) as nat),
                        None => None,
                    }
                },
                Err(e) => {
                    &&& e == MemoryError::Broken
                    &&& old(self).budget() == Some(0nat)
                    &&& *final(self) == *old(self)
                    &&& final(buf)@ == old(buf)@
                },
            },
    {
        match self.reads_left {
            Some(0) => {
                return Err(MemoryError::Broken);
            },
            Some(k) => {
                self.reads_left = Some(k - 1);
            },
            None => {},
        }
        let len = self.data.len();
        let left: usize = if self.pos < len as u64 {
            len - self.pos as usize
        } else {
            0
        };
        let mut n: usize = to - from;
        if left < n {
            n = left;
        }
        if self.chunk < n {
            n = self.chunk;
        }
        let start: usize = if n > 0 { self.pos as usize } else { 0 };
        let ghost upcoming = rest(self.data@, self.pos as int);
        proof {
            assert(buf@ =~= splice(buf@, from as int, upcoming.take(0)));
        }
        let mut i: usize = 0;
        while i < n
            invariant
                i <= n <= to - from,
                from <= to <= buf@.len(),
                n <= left,
                len == self.data@.len(),
                n > 0 ==> start == self.pos && start + left == len,
                buf@.len() == old(buf)@.len(),
                upcoming == rest(self.data@, self.pos as int),
                buf@ == splice(old(buf)@, from as int, upcoming.take(i as int)),
            decreases n - i,
        {
            buf[from + i] = self.data[start + i];
            i += 1;
            proof {
                assert(buf@ =~= splice(old(buf)@, from as int, upcoming.take(i as int)));
            }
        }
        self.pos = self.pos + n as u64;
        proof {
            assert(buf@.take(from as int) =~= old(buf)@.take(from as int));
            assert(buf@.skip(to as int) =~= old(buf)@.skip(to as int));
        }
        Ok(n)
    }

    /// Moves to any offset that sixty-four bits can hold, also past the
    /// end; refuses every other.
    fn seek(&mut self, from: SeekFrom) -> (r: Result<u64, MemoryError>)
        ensures
            final(self).chunk() == old(self).chunk(),
            final(self).budget() == old(self).budget(),
            ({
                let target = seek_target(
                    from,
                    old(self).position(),
                    old(self).content().len() as int,
                );
                &&& r is Ok <==> 0 <= target <= u64::MAX
                &&& r is Ok ==> final(self).seeks() == advanced_count(old(self).seeks())
                &&& r is Err ==> r == Err::<u64, MemoryError>(MemoryError::OutOfRange)
                    && *final(self) == *old(self)
            }),
    {
        let len = self.data.len() as u64;
        let counted: usize = if self.seeks < usize::MAX {
            self.seeks + 1
        } else {
            self.seeks
        };
        match from {
            SeekFrom::Start(p) => {
                self.pos = p;
                self.seeks = counted;
                Ok(p)
            },
            SeekFrom::End(o) => {
                if o >= 0 {
                    if o as u64 > u64::MAX - len {
                        return Err(MemoryError::OutOfRange);
                    }
                    self.pos = len + o as u64;
                } else {
                    let back: u64 = magnitude(o);
                    if back > len {
                        return Err(MemoryError::OutOfRange);
                    }
                    self.pos = len - back;
                }
                self.seeks = counted;
                Ok(self.pos)
            },
            SeekFrom::Current(o) => {
                if o >= 0 {
                    if o as u64 > u64::MAX - self.pos {
                        return Err(MemoryError::OutOfRange);
                    }
                    self.pos = self.pos + o as u64;
                } else {
                    let back: u64 = magnitude(o);
                    if back > self.pos {
                        return Err(MemoryError::OutOfRange);
                    }
                    self.pos = self.pos - back;
                }
                self.seeks = counted;
                Ok(self.pos)
            },
        }
    }
}

} // verus!
