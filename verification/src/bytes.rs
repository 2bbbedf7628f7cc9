//! Copying bytes between fixed buffers.

use crate::source::splice;
use vstd::prelude::*;

verus! {

/// The byte at `i`, or zero where `data` has none.
pub open spec fn sample(data: Seq<u8>, i: int) -> u8 {
    if 0 <= i < data.len() {
        data[i]
    } else {
        0
    }
}

/// The byte at `i`, or zero where `data` has none.
pub fn byte_or_zero(data: &[u8], i: u64) -> (b: u8)
    ensures
        b == sample(data@, i as int),
{
    if i < data.len() as u64 {
        data[i as usize]
    } else {
        0
    }
}

/// Copies `src[from..from + n]` over `dst[at..at + n]`.
pub fn copy_bytes(dst: &mut [u8], at: usize, src: &[u8], from: usize, n: usize)
    requires
        at + n <= old(dst)@.len(),
        from + n <= src@.len(),
    ensures
        final(dst)@ == splice(old(dst)@, at as int, src@.subrange(from as int, from + n)),
        final(dst)@.len() == old(dst)@.len(),
{
    proof {
        assert(dst@ =~= splice(dst@, at as int, src@.subrange(from as int, from as int)));
    }
    let dst_len: usize = dst.len();
    let src_len: usize = src.len();
    let mut i: usize = 0;
    while i < n
        invariant
            i <= n,
            at + n <= dst_len == dst@.len(),
            from + n <= src_len == src@.len(),
            dst@.len() == old(dst)@.len(),
            dst@ == splice(old(dst)@, at as int, src@.subrange(from as int, from + i)),
        decreases n - i,
    {
        dst[at + i] = src[from + i];
        i += 1;
        proof {
            assert(dst@ =~= splice(old(dst)@, at as int, src@.subrange(from as int, from + i)));
        }
    }
}

/// Copies `buf[from..to]` down to `buf[dst..]`, where `dst` is not behind
/// `from`. Every byte outside the place that is copied to keeps what it
/// held.
pub fn move_bytes(buf: &mut [u8], dst: usize, from: usize, to: usize)
    requires
        dst <= from <= to <= old(buf)@.len(),
    ensures
        final(buf)@ == splice(old(buf)@, dst as int, old(buf)@.subrange(from as int, to as int)),
        final(buf)@.len() == old(buf)@.len(),
        final(buf)@.subrange(dst as int, dst + (to - from)) == old(buf)@.subrange(
            from as int,
            to as int,
        ),
        forall|k: int| 0 <= k < dst ==> final(buf)@[k] == old(buf)@[k],
        forall|k: int| dst + (to - from) <= k < old(buf)@.len() ==> final(buf)@[k] == old(buf)@[k],
{
    if dst == from {
        proof {
            assert(buf@ =~= splice(buf@, dst as int, buf@.subrange(from as int, to as int)));
        }
        return ;
    }
    let n: usize = to - from;
    let len: usize = buf.len();
    let mut i: usize = 0;
    while i < n
        invariant
            i <= n,
            n == to - from,
            dst < from <= to <= len == buf@.len(),
            buf@.len() == old(buf)@.len(),
            forall|k: int| 0 <= k < dst ==> buf@[k] == old(buf)@[k],
            forall|k: int| dst <= k < dst + i ==> buf@[k] == old(buf)@[from + (k - dst)],
            forall|k: int| dst + i <= k < buf@.len() ==> buf@[k] == old(buf)@[k],
        decreases n - i,
    {
        buf[dst + i] = buf[from + i];
        i += 1;
    }
    proof {
        assert(buf@.subrange(dst as int, dst + (to - from)) =~= old(buf)@.subrange(
            from as int,
            to as int,
        ));
        assert(buf@ =~= splice(
            old(buf)@,
            dst as int,
            old(buf)@.subrange(from as int, to as int),
        ));
    }
}

} // verus!
