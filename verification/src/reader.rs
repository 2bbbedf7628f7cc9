//! A small read-ahead buffer in front of a byte source.

use crate::bytes::{copy_bytes, move_bytes};
use crate::source::{
    exact_read, lemma_rest_skip, read_effect, rest, seek_target, splice, ByteSource,
    ReadExactError, SeekFrom,
};
use vstd::prelude::*;

verus! {

/// Why the buffered reader could not do what was asked.
#[derive(Debug)]
pub enum ReadError<E> {
    /// The source failed a read.
    Io(E),
    /// The source failed a seek.
    Seek(E),
    /// The seek target cannot be written as an offset.
    SeekRange,
    /// `NotEnoughBytes(wanted, found)`: the source ended after `found` of
    /// the `wanted` bytes.
    NotEnoughBytes(usize, usize),
    /// `NotEnoughBuffer(capacity, wanted)`: more bytes were asked for at
    /// once than the buffer can hold.
    NotEnoughBuffer(usize, usize),
}

/// A fixed-capacity read-ahead buffer over a byte source.
///
/// The bytes in `buffer[pos..filled]` have been read from the source and
/// not yet handed out.
pub struct ZBufferedReader<S, const BUFFER_SIZE: usize> {
    inner: S,
    buffer: [u8; BUFFER_SIZE],
    pos: usize,
    filled: usize,
    stream_pos: u64,
}

/// The smaller of two lengths.
pub open spec fn min_len(a: int, b: int) -> int {
    if a <= b {
        a
    } else {
        b
    }
}

/// A byte count added to a stream offset, stopping at the largest offset.
pub open spec fn advanced(offset: u64, n: int) -> u64 {
    if offset + n <= u64::MAX {
        (offset + n) as u64
    } else {
        u64::MAX
    }
}

impl<S: ByteSource, const BUFFER_SIZE: usize> ZBufferedReader<S, BUFFER_SIZE> {
    /// The source behind the buffer.
    pub closed spec fn source(&self) -> S {
        self.inner
    }

    /// The bytes that were read ahead and not handed out yet.
    pub closed spec fn buffered(&self) -> Seq<u8> {
        self.buffer@.subrange(self.pos as int, self.filled as int)
    }

    /// Every byte the reader will still hand out, in order: what it holds,
    /// then what the source has left.
    pub open spec fn upcoming(&self) -> Seq<u8> {
        self.buffered() + rest(self.source().content(), self.source().position())
    }

    /// The number of bytes handed out since the reader was made, or the
    /// offset of the last seek plus the bytes handed out after it.
    pub closed spec fn spec_stream_pos(&self) -> u64 {
        self.stream_pos
    }

    /// The buffer has room, what it holds lies within it, and the source
    /// can be read.
    pub closed spec fn wf(&self) -> bool {
        &&& self.pos <= self.filled <= BUFFER_SIZE
        &&& BUFFER_SIZE > 0
        &&& self.inner.wf()
    }

    /// Both readers stand on the same file.
    pub open spec fn same_file(&self, other: &Self) -> bool {
        &&& self.source().content() == other.source().content()
        &&& self.source().infallible() == other.source().infallible()
    }

    /// What is read ahead fits the buffer.
    pub proof fn lemma_bounds(&self)
        requires
            self.wf(),
        ensures
            self.buffered().len() <= BUFFER_SIZE,
            self.source().wf(),
            BUFFER_SIZE > 0,
    {
    }

    /// The source behind the buffer.
    pub fn get_ref(&self) -> (s: &S)
        ensures
            *s == self.source(),
    {
        &self.inner
    }

    /// Wraps `inner`, with nothing read ahead.
    pub fn new(inner: S) -> (r: Self)
        requires
            inner.wf(),
            BUFFER_SIZE > 0,
        ensures
            r.wf(),
            r.source() == inner,
            r.buffered().len() == 0,
            r.upcoming() == rest(inner.content(), inner.position()),
            r.spec_stream_pos() == 0,
    {
        let r = Self { inner, buffer: [0u8; BUFFER_SIZE], pos: 0, filled: 0, stream_pos: 0 };
        proof {
            assert(r.upcoming() =~= rest(inner.content(), inner.position()));
        }
        r
    }

    /// Reads ahead if nothing is buffered.
    fn refill(&mut self) -> (r: Result<(), ReadError<S::Error>>)
        requires
            old(self).wf(),
        ensures
            final(self).wf(),
            final(self).same_file(old(self)),
            final(self).spec_stream_pos() == old(self).spec_stream_pos(),
            old(self).buffered().len() > 0 ==> *final(self) == *old(self) && r is Ok,
            old(self).source().infallible() ==> r is Ok,
            r is Err ==> r->Err_0 is Io,
            r is Ok ==> {
                &&& final(self).upcoming() == old(self).upcoming()
                &&& (final(self).buffered().len() == 0 <==> old(self).upcoming().len() == 0)
            },
    {
        if self.pos >= self.filled {
            let ghost left = rest(self.inner.content(), self.inner.position());
            match self.inner.read(&mut self.buffer, 0, BUFFER_SIZE) {
                Ok(n) => {
                    self.filled = n;
                    self.pos = 0;
                    proof {
                        lemma_rest_skip(
                            old(self).inner.content(),
                            old(self).inner.position(),
                            n as int,
                        );
                        assert(self.buffered() =~= left.take(n as int));
                        assert(old(self).buffered() =~= Seq::<u8>::empty());
                        assert(self.upcoming() =~= old(self).upcoming());
                    }
                },
                Err(e) => {
                    return Err(ReadError::Io(e));
                },
            }
        }
        Ok(())
    }

    /// The bytes that can be handed out without touching the source,
    /// after reading ahead if there were none. An empty slice means that
    /// the source is exhausted.
    pub fn fill_buf(&mut self) -> (r: Result<&[u8], ReadError<S::Error>>)
        requires
            old(self).wf(),
        ensures
            final(self).wf(),
            final(self).same_file(old(self)),
            final(self).spec_stream_pos() == old(self).spec_stream_pos(),
            old(self).buffered().len() > 0 ==> *final(self) == *old(self) && r is Ok,
            old(self).source().infallible() ==> r is Ok,
            r is Err ==> r->Err_0 is Io,
            r matches Ok(bytes) ==> {
                &&& bytes@ == final(self).buffered()
                &&& final(self).upcoming() == old(self).upcoming()
                &&& (bytes@.len() == 0 <==> old(self).upcoming().len() == 0)
            },
    {
        match self.refill() {
            Ok(()) => {},
            Err(e) => {
                return Err(e);
            },
        }
        Ok(vstd::slice::slice_subrange(self.buffer.as_slice(), self.pos, self.filled))
    }

    /// Marks up to `amt` buffered bytes as handed out. Asking for more
    /// than is buffered hands out all of it.
    pub fn consume(&mut self, amt: usize)
        requires
            old(self).wf(),
        ensures
            final(self).wf(),
            final(self).source() == old(self).source(),
            ({
                let n = min_len(amt as int, old(self).buffered().len() as int);
                &&& final(self).buffered() == old(self).buffered().skip(n)
                &&& final(self).upcoming() == old(self).upcoming().skip(n)
                &&& final(self).spec_stream_pos() == advanced(old(self).spec_stream_pos(), n)
            }),
    {
        let have: usize = self.filled - self.pos;
        let n: usize = if amt < have { amt } else { have };
        self.pos = self.pos + n;
        self.stream_pos = self.stream_pos.saturating_add(n as u64);
        proof {
            assert(self.buffered() =~= old(self).buffered().skip(n as int));
            assert(self.upcoming() =~= old(self).upcoming().skip(n as int));
        }
    }

    /// The number of bytes read ahead and not handed out yet.
    pub fn available(&self) -> (n: usize)
        requires
            self.wf(),
        ensures
            n == self.buffered().len(),
    {
        self.filled - self.pos
    }

    /// The offset that the reader counts the next byte at.
    pub fn z_position(&self) -> (p: u64)
        ensures
            p == self.spec_stream_pos(),
    {
        self.stream_pos
    }

    /// Whether the reader has nothing more to hand out. Reads ahead to
    /// find out.
    pub fn is_eof(&mut self) -> (r: Result<bool, ReadError<S::Error>>)
        requires
            old(self).wf(),
        ensures
            final(self).wf(),
            final(self).same_file(old(self)),
            final(self).spec_stream_pos() == old(self).spec_stream_pos(),
            old(self).buffered().len() > 0 || old(self).source().infallible() ==> r is Ok,
            r is Err ==> r->Err_0 is Io,
            r matches Ok(eof) ==> {
                &&& final(self).upcoming() == old(self).upcoming()
                &&& (eof <==> old(self).upcoming().len() == 0)
            },
    {
        match self.refill() {
            Ok(()) => Ok(self.pos >= self.filled),
            Err(e) => Err(e),
        }
    }

    /// Reads some bytes into `buf[from..to]`, starting at `from`.
    ///
    /// Buffered bytes are handed out first. With nothing buffered, a
    /// request of at least the buffer's capacity goes straight to the
    /// source; a smaller one reads ahead and is served from the buffer.
    /// Zero means that the source is exhausted (or that the range is
    /// empty).
    pub fn read(&mut self, buf: &mut [u8], from: usize, to: usize) -> (r: Result<
        usize,
        ReadError<S::Error>,
    >)
        requires
            old(self).wf(),
            from <= to <= old(buf)@.len(),
        ensures
            final(self).wf(),
            final(self).same_file(old(self)),
            final(buf)@.len() == old(buf)@.len(),
            final(buf)@.take(from as int) == old(buf)@.take(from as int),
            final(buf)@.skip(to as int) == old(buf)@.skip(to as int),
            old(self).buffered().len() > 0 || old(self).source().infallible() ==> r is Ok,
            r is Err ==> r->Err_0 is Io,
            r matches Ok(n) ==> {
                &&& read_effect(
                    old(self).upcoming(),
                    old(buf)@,
                    from as int,
                    to as int,
                    n as int,
                    final(buf)@,
                )
                &&& final(self).upcoming() == old(self).upcoming().skip(n as int)
                &&& final(self).spec_stream_pos() == advanced(
                    old(self).spec_stream_pos(),
                    n as int,
                )
                &&& (old(self).buffered().len() > 0 ==> {
                    &&& n == min_len(old(self).buffered().len() as int, to - from)
                    &&& final(self).buffered() == old(self).buffered().skip(n as int)
                })
                &&& (old(self).buffered().len() == 0 && to - from >= BUFFER_SIZE
                    ==> final(self).buffered().len() == 0)
                &&& (final(self).buffered().len() > 0 ==> n == to - from)
            },
    {
        if self.pos >= self.filled && to - from >= BUFFER_SIZE {
            proof {
                assert(self.buffered() =~= Seq::<u8>::empty());
                assert(self.upcoming() =~= rest(self.inner.content(), self.inner.position()));
            }
            match self.inner.read(buf, from, to) {
                Ok(n) => {
                    self.stream_pos = self.stream_pos.saturating_add(n as u64);
                    proof {
                        lemma_rest_skip(
                            old(self).inner.content(),
                            old(self).inner.position(),
                            n as int,
                        );
                        assert(self.buffered() =~= Seq::<u8>::empty());
                        assert(self.upcoming() =~= old(self).upcoming().skip(n as int));
                    }
                    Ok(n)
                },
                Err(e) => Err(ReadError::Io(e)),
            }
        } else {
            match self.refill() {
                Ok(()) => {},
                Err(e) => {
                    return Err(e);
                },
            }
            let have: usize = self.filled - self.pos;
            let n: usize = if have < to - from { have } else { to - from };
            copy_bytes(buf, from, self.buffer.as_slice(), self.pos, n);
            proof {
                assert(self.buffer@.subrange(self.pos as int, self.pos + n)
                    =~= self.upcoming().take(n as int));
                assert(buf@.take(from as int) =~= old(buf)@.take(from as int));
                assert(buf@.skip(to as int) =~= old(buf)@.skip(to as int));
            }
            self.consume(n);
            Ok(n)
        }
    }

    /// Fills `buf[from..to]`, reading as often as it takes.
    ///
    /// Fails with `UnexpectedEof` exactly when fewer bytes are left than
    /// the range is long; everything that was left has then been copied.
    pub fn read_exact(&mut self, buf: &mut [u8], from: usize, to: usize) -> (r: Result<
        (),
        ReadExactError<S::Error>,
    >)
        requires
            old(self).wf(),
            from <= to <= old(buf)@.len(),
        ensures
            final(self).wf(),
            final(self).same_file(old(self)),
            final(buf)@.len() == old(buf)@.len(),
            (to - from <= old(self).buffered().len() || old(self).source().infallible()) ==> !(r is Err
                && r->Err_0 is Other),
            match r {
                Ok(()) => exact_read(old(self).upcoming(), to - from) == Some(
                    (final(buf)@.subrange(from as int, to as int), final(self).upcoming()),
                ),
                Err(ReadExactError::UnexpectedEof) => exact_read(old(self).upcoming(), to - from)
                    is None,
                Err(ReadExactError::Other(_)) => true,
            },
            match r {
                Ok(()) => {
                    &&& to - from <= old(self).upcoming().len()
                    &&& final(buf)@ == splice(
                        old(buf)@,
                        from as int,
                        old(self).upcoming().take(to - from),
                    )
                    &&& final(self).upcoming() == old(self).upcoming().skip(to - from)
                    &&& final(self).spec_stream_pos() == advanced(
                        old(self).spec_stream_pos(),
                        to - from,
                    )
                },
                Err(ReadExactError::UnexpectedEof) => {
                    &&& old(self).upcoming().len() < to - from
                    &&& final(buf)@ == splice(old(buf)@, from as int, old(self).upcoming())
                    &&& final(self).upcoming().len() == 0
                },
                Err(ReadExactError::Other(_)) => true,
            },
    {
        let ghost upcoming = self.upcoming();
        proof {
            assert(buf@ =~= splice(buf@, from as int, upcoming.take(0)));
            assert(upcoming.skip(0) =~= upcoming);
        }
        let mut at: usize = from;
        while at < to
            invariant
                from <= at <= to <= buf@.len(),
                buf@.len() == old(buf)@.len(),
                self.wf(),
                self.same_file(old(self)),
                upcoming == old(self).upcoming(),
                at - from <= upcoming.len(),
                self.upcoming() == upcoming.skip(at - from),
                self.spec_stream_pos() == advanced(old(self).spec_stream_pos(), at - from),
                self.buffered().len() >= old(self).buffered().len() - (at - from),
                buf@ == splice(old(buf)@, from as int, upcoming.take(at - from)),
            decreases to - at,
        {
            match self.read(buf, at, to) {
                Ok(n) => {
                    if n == 0 {
                        proof {
                            assert(upcoming.take(at - from) =~= upcoming);
                        }
                        return Err(ReadExactError::UnexpectedEof);
                    }
                    proof {
                        let next = upcoming.skip(at - from).take(n as int);
                        assert(upcoming.take(at - from + n) =~= upcoming.take(at - from) + next);
                        assert(buf@ =~= splice(
                            old(buf)@,
                            from as int,
                            upcoming.take(at - from + n),
                        ));
                        assert(self.upcoming() =~= upcoming.skip(at - from + n));
                    }
                    at = at + n;
                },
                Err(e) => {
                    match e {
                        ReadError::Io(inner) => {
                            return Err(ReadExactError::Other(inner));
                        },
                        _ => {
                            proof {
                                assert(false);
                            }
                            return Err(ReadExactError::UnexpectedEof);
                        },
                    }
                },
            }
        }
        proof {
            assert(buf@.subrange(from as int, to as int) =~= upcoming.take(to - from));
        }
        Ok(())
    }

    /// Moves the reader to `position`, counted from the start of the file.
    /// Whatever was read ahead is dropped, also where the source fails.
    pub fn seek(&mut self, position: u64) -> (r: Result<u64, ReadError<S::Error>>)
        requires
            old(self).wf(),
        ensures
            final(self).wf(),
            final(self).same_file(old(self)),
            final(self).buffered().len() == 0,
            old(self).source().infallible() ==> r is Ok,
            r is Err ==> r->Err_0 is Seek,
            r matches Ok(p) ==> {
                &&& p == position
                &&& final(self).source().position() == position
                &&& final(self).upcoming() == rest(old(self).source().content(), position as int)
                &&& final(self).spec_stream_pos() == position
            },
    {
        self.z_seek(SeekFrom::Start(position))
    }

    /// The offset that a seek aims at. An offset from the current position
    /// counts from the next byte the reader would hand out, not from where
    /// the source stands after reading ahead.
    pub open spec fn seek_goal(&self, from: SeekFrom) -> int {
        seek_target(
            from,
            self.source().position() - self.buffered().len(),
            self.source().content().len() as int,
        )
    }

    /// Whether the step that the source itself has to take for this seek
    /// can be written down. Only an offset from the current position can
    /// fail to.
    pub open spec fn seek_expressible(&self, from: SeekFrom) -> bool {
        from matches SeekFrom::Current(o) ==> o - self.buffered().len() >= i64::MIN
    }

    /// Moves the reader and reports the new offset. Whatever was read
    /// ahead is dropped, wherever the seek goes and also where the source
    /// fails; only a seek that cannot be asked of the source at all leaves
    /// the reader as it was.
    pub fn z_seek(&mut self, from: SeekFrom) -> (r: Result<u64, ReadError<S::Error>>)
        requires
            old(self).wf(),
        ensures
            final(self).wf(),
            final(self).same_file(old(self)),
            (old(self).source().infallible() && old(self).seek_expressible(from) && 0 <= old(
                self,
            ).seek_goal(from) <= u64::MAX) ==> r is Ok,
            match r {
                Ok(p) => {
                    &&& p == old(self).seek_goal(from)
                    &&& final(self).buffered().len() == 0
                    &&& final(self).source().position() == p
                    &&& final(self).upcoming() == rest(old(self).source().content(), p as int)
                    &&& final(self).spec_stream_pos() == p
                },
                Err(ReadError::SeekRange) => {
                    &&& !old(self).seek_expressible(from)
                    &&& *final(self) == *old(self)
                },
                Err(e) => {
                    &&& e is Seek
                    &&& old(self).seek_expressible(from)
                    &&& final(self).buffered().len() == 0
                    &&& final(self).spec_stream_pos() == old(self).spec_stream_pos()
                },
            },
    {
        let inner_from = match from {
            SeekFrom::Start(p) => SeekFrom::Start(p),
            SeekFrom::End(o) => SeekFrom::End(o),
            SeekFrom::Current(o) => {
                let held: usize = self.filled - self.pos;
                let step: i128 = o as i128 - held as i128;
                if step < i64::MIN as i128 {
                    return Err(ReadError::SeekRange);
                }
                SeekFrom::Current(step as i64)
            },
        };
        match self.inner.seek(inner_from) {
            Ok(p) => {
                self.pos = 0;
                self.filled = 0;
                self.stream_pos = p;
                proof {
                    assert(self.buffered() =~= Seq::<u8>::empty());
                    assert(self.upcoming() =~= rest(old(self).source().content(), p as int));
                }
                Ok(p)
            },
            Err(e) => {
                self.pos = 0;
                self.filled = 0;
                proof {
                    assert(self.buffered() =~= Seq::<u8>::empty());
                }
                Err(ReadError::Seek(e))
            },
        }
    }

    /// Hands out the next byte, or zero when there is none or the source
    /// fails.
    pub fn read_byte_no_error(&mut self) -> (b: u8)
        requires
            old(self).wf(),
        ensures
            final(self).wf(),
            final(self).same_file(old(self)),
            ({
                ||| {
                    &&& old(self).upcoming().len() > 0
                    &&& b == old(self).upcoming()[0]
                    &&& final(self).upcoming() == old(self).upcoming().skip(1)
                    &&& final(self).spec_stream_pos() == advanced(old(self).spec_stream_pos(), 1)
                }
                ||| {
                    &&& b == 0
                    &&& old(self).buffered().len() == 0
                    &&& final(self).spec_stream_pos() == old(self).spec_stream_pos()
                    &&& (old(self).source().infallible() ==> old(self).upcoming().len() == 0
                        && final(self).upcoming().len() == 0)
                }
            }),
    {
        match self.refill() {
            Ok(()) => {
                if self.pos < self.filled {
                    let b = self.buffer[self.pos];
                    proof {
                        assert(self.buffered()[0] == b);
                    }
                    self.consume(1);
                    b
                } else {
                    0
                }
            },
            Err(_) => 0,
        }
    }

    /// Reads into `buf` until it is full or the reader has nothing left,
    /// and reports how many bytes that were.
    pub fn read_bytes(&mut self, buf: &mut [u8]) -> (r: Result<usize, ReadError<S::Error>>)
        requires
            old(self).wf(),
        ensures
            final(self).wf(),
            final(self).same_file(old(self)),
            final(buf)@.len() == old(buf)@.len(),
            (old(buf)@.len() <= old(self).buffered().len() || old(self).source().infallible())
                ==> r is Ok,
            r is Err ==> r->Err_0 is Io,
            r matches Ok(total) ==> {
                &&& total == min_len(old(buf)@.len() as int, old(self).upcoming().len() as int)
                &&& final(buf)@ == splice(old(buf)@, 0, old(self).upcoming().take(total as int))
                &&& final(self).upcoming() == old(self).upcoming().skip(total as int)
                &&& final(self).spec_stream_pos() == advanced(
                    old(self).spec_stream_pos(),
                    total as int,
                )
            },
    {
        let ghost upcoming = self.upcoming();
        let len: usize = buf.len();
        proof {
            assert(buf@ =~= splice(buf@, 0, upcoming.take(0)));
            assert(upcoming.skip(0) =~= upcoming);
        }
        let mut total: usize = 0;
        while total < len
            invariant_except_break
                total <= upcoming.len(),
                self.upcoming() == upcoming.skip(total as int),
            invariant
                total <= len == buf@.len(),
                buf@.len() == old(buf)@.len(),
                self.wf(),
                self.same_file(old(self)),
                upcoming == old(self).upcoming(),
                self.spec_stream_pos() == advanced(old(self).spec_stream_pos(), total as int),
                self.buffered().len() >= old(self).buffered().len() - total,
                buf@ == splice(old(buf)@, 0, upcoming.take(total as int)),
            ensures
                total == min_len(len as int, upcoming.len() as int),
                self.upcoming() == upcoming.skip(total as int),
            decreases len - total,
        {
            match self.refill() {
                Ok(()) => {},
                Err(e) => {
                    return Err(e);
                },
            }
            let have: usize = self.filled - self.pos;
            if have == 0 {
                break ;
            }
            let n: usize = if have < len - total { have } else { len - total };
            copy_bytes(buf, total, self.buffer.as_slice(), self.pos, n);
            proof {
                let next = upcoming.skip(total as int).take(n as int);
                assert(self.buffer@.subrange(self.pos as int, self.pos + n) =~= next);
                assert(upcoming.take(total + n) =~= upcoming.take(total as int) + next);
                assert(buf@ =~= splice(old(buf)@, 0, upcoming.take(total + n)));
            }
            self.consume(n);
            proof {
                assert(self.upcoming() =~= upcoming.skip(total + n));
            }
            total = total + n;
        }
        Ok(total)
    }

    /// Fills `buf` completely, or copies what is left and fails with
    /// `NotEnoughBytes(wanted, found)`.
    pub fn read_exact_bytes(&mut self, buf: &mut [u8]) -> (r: Result<(), ReadError<S::Error>>)
        requires
            old(self).wf(),
        ensures
            final(self).wf(),
            final(self).same_file(old(self)),
            final(buf)@.len() == old(buf)@.len(),
            (old(buf)@.len() <= old(self).buffered().len() || old(self).source().infallible())
                ==> !(r is Err && r->Err_0 is Io),
            match r {
                Ok(()) => {
                    &&& old(buf)@.len() <= old(self).upcoming().len()
                    &&& final(buf)@ == old(self).upcoming().take(old(buf)@.len() as int)
                    &&& final(self).upcoming() == old(self).upcoming().skip(
                        old(buf)@.len() as int,
                    )
                },
                Err(ReadError::NotEnoughBytes(wanted, found)) => {
                    &&& wanted == old(buf)@.len()
                    &&& found == old(self).upcoming().len()
                    &&& found < wanted
                    &&& final(buf)@ == splice(old(buf)@, 0, old(self).upcoming())
                    &&& final(self).upcoming().len() == 0
                },
                Err(e) => e is Io,
            },
    {
        let len: usize = buf.len();
        match self.read_bytes(buf) {
            Ok(total) => {
                if total < len {
                    proof {
                        assert(old(self).upcoming().take(total as int) =~= old(self).upcoming());
                    }
                    Err(ReadError::NotEnoughBytes(len, total))
                } else {
                    proof {
                        assert(buf@ =~= old(self).upcoming().take(len as int));
                    }
                    Ok(())
                }
            },
            Err(e) => Err(e),
        }
    }

    /// [`Self::read_exact_bytes`] for a buffer whose length is fixed.
    pub fn read_const_bytes<const N: usize>(&mut self, buf: &mut [u8; N]) -> (r: Result<
        (),
        ReadError<S::Error>,
    >)
        requires
            old(self).wf(),
        ensures
            final(self).wf(),
            final(self).same_file(old(self)),
            (N <= old(self).buffered().len() || old(self).source().infallible()) ==> !(r is Err
                && r->Err_0 is Io),
            match r {
                Ok(()) => {
                    &&& N <= old(self).upcoming().len()
                    &&& final(buf)@ == old(self).upcoming().take(N as int)
                    &&& final(self).upcoming() == old(self).upcoming().skip(N as int)
                },
                Err(ReadError::NotEnoughBytes(wanted, found)) => {
                    &&& wanted == N
                    &&& found == old(self).upcoming().len()
                    &&& found < wanted
                    &&& final(buf)@ == splice(old(buf)@, 0, old(self).upcoming())
                    &&& final(self).upcoming().len() == 0
                },
                Err(e) => e is Io,
            },
    {
        self.read_exact_bytes(buf)
    }

    /// [`Self::read_const_bytes`] with the outcome dropped: `buf` holds
    /// the bytes that could be read, followed by what it held before.
    pub fn read_const_bytes_no_error<const N: usize>(&mut self, buf: &mut [u8; N])
        requires
            old(self).wf(),
        ensures
            final(self).wf(),
            final(self).same_file(old(self)),
            (N <= old(self).buffered().len() || old(self).source().infallible()) ==> {
                let n = min_len(N as int, old(self).upcoming().len() as int);
                &&& final(buf)@ == splice(old(buf)@, 0, old(self).upcoming().take(n))
                &&& final(self).upcoming() == old(self).upcoming().skip(n)
            },
    {
        let r = self.read_exact_bytes(buf);
        proof {
            let up = old(self).upcoming();
            if r is Ok {
                assert(buf@ =~= splice(old(buf)@, 0, up.take(N as int)));
            } else if r->Err_0 is NotEnoughBytes {
                assert(up.take(up.len() as int) =~= up);
                assert(self.upcoming() =~= up.skip(up.len() as int));
            }
        }
    }

    /// Copies the next bytes into `buf` without handing them out: as many
    /// as `buf` holds, or all that is left if that is fewer.
    ///
    /// No more than the buffer's capacity can be looked at in one call.
    pub fn peek_bytes(&mut self, buf: &mut [u8]) -> (r: Result<usize, ReadError<S::Error>>)
        requires
            old(self).wf(),
        ensures
            final(self).wf(),
            final(self).same_file(old(self)),
            final(buf)@.len() == old(buf)@.len(),
            final(self).spec_stream_pos() == old(self).spec_stream_pos(),
            (old(buf)@.len() <= old(self).buffered().len() || (old(self).source().infallible()
                && old(buf)@.len() <= BUFFER_SIZE)) ==> r is Ok,
            match r {
                Ok(n) => {
                    &&& old(buf)@.len() <= BUFFER_SIZE
                    &&& n == min_len(old(buf)@.len() as int, old(self).upcoming().len() as int)
                    &&& final(buf)@ == splice(old(buf)@, 0, old(self).upcoming().take(n as int))
                    &&& final(self).upcoming() == old(self).upcoming()
                },
                Err(ReadError::NotEnoughBuffer(capacity, wanted)) => {
                    &&& capacity == BUFFER_SIZE
                    &&& wanted == old(buf)@.len()
                    &&& wanted > capacity
                    &&& *final(self) == *old(self)
                    &&& final(buf)@ == old(buf)@
                },
                Err(e) => e is Io && old(buf)@.len() <= BUFFER_SIZE,
            },
    {
        let want: usize = buf.len();
        if want > BUFFER_SIZE {
            return Err(ReadError::NotEnoughBuffer(BUFFER_SIZE, want));
        }
        let ghost upcoming = self.upcoming();
        if self.filled - self.pos < want {
            let ghost held = self.buffered();
            move_bytes(&mut self.buffer, 0, self.pos, self.filled);
            self.filled = self.filled - self.pos;
            self.pos = 0;
            proof {
                assert(self.buffered() =~= held);
            }
            while self.filled < want
                invariant_except_break
                    self.upcoming() == upcoming,
                invariant
                    self.wf(),
                    self.pos == 0,
                    want <= BUFFER_SIZE,
                    want == old(buf)@.len(),
                    buf@ == old(buf)@,
                    old(self).buffered().len() < want,
                    self.same_file(old(self)),
                    self.spec_stream_pos() == old(self).spec_stream_pos(),
                    upcoming == old(self).upcoming(),
                ensures
                    self.upcoming() == upcoming,
                    self.buffered().len() == min_len(want as int, upcoming.len() as int)
                        || self.buffered().len() >= want,
                decreases BUFFER_SIZE - self.filled,
            {
                let ghost before = *self;
                match self.inner.read(&mut self.buffer, self.filled, BUFFER_SIZE) {
                    Ok(n) => {
                        self.filled = self.filled + n;
                        proof {
                            let left = rest(before.inner.content(), before.inner.position());
                            lemma_rest_skip(
                                before.inner.content(),
                                before.inner.position(),
                                n as int,
                            );
                            assert(self.buffered() =~= before.buffered() + left.take(n as int));
                            assert(self.upcoming() =~= upcoming);
                        }
                        if n == 0 {
                            break ;
                        }
                    },
                    Err(e) => {
                        return Err(ReadError::Io(e));
                    },
                }
            }
        }
        let have: usize = self.filled - self.pos;
        let n: usize = if have < want { have } else { want };
        copy_bytes(buf, 0, self.buffer.as_slice(), self.pos, n);
        proof {
            assert(self.buffer@.subrange(self.pos as int, self.pos + n) =~= upcoming.take(
                n as int,
            ));
        }
        Ok(n)
    }

    /// Copies the next `buf.len()` bytes into `buf` without handing them
    /// out, or fails with `NotEnoughBytes(wanted, found)` after copying the
    /// `found` bytes that are left.
    pub fn peek_exact_bytes(&mut self, buf: &mut [u8]) -> (r: Result<(), ReadError<S::Error>>)
        requires
            old(self).wf(),
        ensures
            final(self).wf(),
            final(self).same_file(old(self)),
            final(buf)@.len() == old(buf)@.len(),
            final(self).spec_stream_pos() == old(self).spec_stream_pos(),
            (old(buf)@.len() <= old(self).buffered().len() || (old(self).source().infallible()
                && old(buf)@.len() <= BUFFER_SIZE)) ==> !(r is Err && r->Err_0 is Io),
            match r {
                Ok(()) => {
                    &&& old(buf)@.len() <= BUFFER_SIZE
                    &&& old(buf)@.len() <= old(self).upcoming().len()
                    &&& final(buf)@ == old(self).upcoming().take(old(buf)@.len() as int)
                    &&& final(self).upcoming() == old(self).upcoming()
                },
                Err(ReadError::NotEnoughBytes(wanted, found)) => {
                    &&& wanted == old(buf)@.len()
                    &&& wanted <= BUFFER_SIZE
                    &&& found == old(self).upcoming().len()
                    &&& found < wanted
                    &&& final(buf)@ == splice(old(buf)@, 0, old(self).upcoming())
                    &&& final(self).upcoming() == old(self).upcoming()
                },
                Err(ReadError::NotEnoughBuffer(capacity, wanted)) => {
                    &&& capacity == BUFFER_SIZE
                    &&& wanted == old(buf)@.len()
                    &&& wanted > capacity
                    &&& *final(self) == *old(self)
                    &&& final(buf)@ == old(buf)@
                },
                Err(e) => e is Io && old(buf)@.len() <= BUFFER_SIZE,
            },
    {
        let len: usize = buf.len();
        match self.peek_bytes(buf) {
            Ok(found) => {
                if found < len {
                    proof {
                        assert(old(self).upcoming().take(found as int) =~= old(self).upcoming());
                    }
                    Err(ReadError::NotEnoughBytes(len, found))
                } else {
                    proof {
                        assert(buf@ =~= old(self).upcoming().take(len as int));
                    }
                    Ok(())
                }
            },
            Err(e) => Err(e),
        }
    }

    /// Appends everything that is left to `sink` and reports how many
    /// bytes that were.
    pub fn read_remaining(&mut self, sink: &mut Vec<u8>) -> (r: Result<
        usize,
        ReadError<S::Error>,
    >)
        requires
            old(self).wf(),
        ensures
            final(self).wf(),
            final(self).same_file(old(self)),
            old(self).source().infallible() ==> r is Ok,
            r is Err ==> r->Err_0 is Io,
            r matches Ok(total) ==> {
                &&& total == old(self).upcoming().len()
                &&& final(sink)@ == old(sink)@ + old(self).upcoming()
                &&& final(self).upcoming().len() == 0
                &&& final(self).spec_stream_pos() == advanced(
                    old(self).spec_stream_pos(),
                    total as int,
                )
            },
    {
        let ghost upcoming = self.upcoming();
        let mut total: usize = 0;
        proof {
            assert(sink@ =~= old(sink)@ + upcoming.take(0));
            assert(upcoming.skip(0) =~= upcoming);
        }
        loop
            invariant
                self.wf(),
                self.same_file(old(self)),
                upcoming == old(self).upcoming(),
                total <= upcoming.len(),
                self.upcoming() == upcoming.skip(total as int),
                sink@ == old(sink)@ + upcoming.take(total as int),
                sink@.len() == old(sink)@.len() + total,
                self.spec_stream_pos() == advanced(old(self).spec_stream_pos(), total as int),
            ensures
                total == upcoming.len(),
                self.upcoming().len() == 0,
                sink@ == old(sink)@ + upcoming.take(total as int),
                self.spec_stream_pos() == advanced(old(self).spec_stream_pos(), total as int),
            decreases upcoming.len() - total,
        {
            match self.refill() {
                Ok(()) => {},
                Err(e) => {
                    return Err(e);
                },
            }
            let have: usize = self.filled - self.pos;
            if have == 0 {
                break ;
            }
            let ghost chunk = self.buffered();
            let ghost base = sink@;
            let mut i: usize = 0;
            while i < have
                invariant
                    i <= have,
                    have == self.filled - self.pos,
                    self.wf(),
                    chunk == self.buffered(),
                    sink@ == base + chunk.take(i as int),
                decreases have - i,
            {
                sink.push(self.buffer[self.pos + i]);
                i += 1;
                proof {
                    assert(sink@ =~= base + chunk.take(i as int));
                }
            }
            proof {
                assert(chunk.take(have as int) =~= chunk);
                assert(chunk =~= upcoming.skip(total as int).take(have as int));
                assert(upcoming.take(total + have) =~= upcoming.take(total as int) + chunk);
                assert(sink@ =~= old(sink)@ + upcoming.take(total + have));
            }
            self.consume(have);
            let grown: usize = sink.len();
            proof {
                assert(self.upcoming() =~= upcoming.skip(total + have));
                assert(total + have <= grown);
            }
            total = total + have;
        }
        proof {
            assert(upcoming.take(total as int) =~= upcoming);
        }
        Ok(total)
    }
}

} // verus!
