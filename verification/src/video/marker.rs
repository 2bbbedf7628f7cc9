//! Finding JPEG frames in a byte stream by their start and end markers.

use vstd::prelude::*;

verus! {

/// Second byte of the start-of-image marker `FF D8`.
pub const SOI: u8 = 0xD8;

/// Second byte of the end-of-image marker `FF D9`.
pub const EOI: u8 = 0xD9;

/// Whether the two bytes at `i` are the marker `FF code`.
pub open spec fn marker_at(s: Seq<u8>, i: int, code: u8) -> bool {
    0 <= i && i + 1 < s.len() && s[i] == 0xFF && s[i + 1] == code
}

/// Whether `i` is where the first marker `FF code` at or behind `from`
/// begins.
pub open spec fn first_marker(s: Seq<u8>, from: int, code: u8, i: int) -> bool {
    &&& from <= i
    &&& marker_at(s, i, code)
    &&& forall|j: int| from <= j < i ==> !marker_at(s, j, code)
}

/// Whether no marker `FF code` begins in `s[from..to]`.
pub open spec fn no_marker(s: Seq<u8>, from: int, to: int, code: u8) -> bool {
    forall|j: int| from <= j < to ==> !marker_at(s, j, code)
}

/// Whether the first frame of the stream `s` is `s[soi..end]`: it begins
/// with the first start marker of the stream and ends with the first end
/// marker behind that.
pub open spec fn first_frame(s: Seq<u8>, soi: int, end: int) -> bool {
    first_marker(s, 0, SOI, soi) && first_marker(s, soi, EOI, end - 2)
}

/// Whether the stream holds a start marker.
pub open spec fn has_start(s: Seq<u8>) -> bool {
    exists|soi: int| first_marker(s, 0, SOI, soi)
}

/// Where the first start marker of a stream that has one begins.
pub open spec fn start_of(s: Seq<u8>) -> int {
    choose|soi: int| first_marker(s, 0, SOI, soi)
}

/// Whether the stream holds a complete frame: a start marker, and an end
/// marker behind it.
pub open spec fn has_frame(s: Seq<u8>) -> bool {
    has_start(s) && exists|eoi: int| first_marker(s, start_of(s), EOI, eoi)
}

/// Where the first frame of a stream that has one begins and ends.
pub open spec fn frame_span(s: Seq<u8>) -> (int, int) {
    (start_of(s), (choose|eoi: int| first_marker(s, start_of(s), EOI, eoi)) + 2)
}

/// A stream has one first marker at most.
pub proof fn lemma_first_marker_unique(s: Seq<u8>, from: int, code: u8, a: int, b: int)
    requires
        first_marker(s, from, code, a),
        first_marker(s, from, code, b),
    ensures
        a == b,
{
    if a < b {
        assert(!marker_at(s, a, code));
    } else if b < a {
        assert(!marker_at(s, b, code));
    }
}

/// A start marker that is the first one is the one that `start_of` names.
pub proof fn lemma_start_of(s: Seq<u8>, soi: int)
    requires
        first_marker(s, 0, SOI, soi),
    ensures
        has_start(s),
        start_of(s) == soi,
{
    lemma_first_marker_unique(s, 0, SOI, soi, start_of(s));
}

/// A frame that is the first one is the one that `frame_span` names.
pub proof fn lemma_frame_span(s: Seq<u8>, soi: int, end: int)
    requires
        first_frame(s, soi, end),
    ensures
        has_frame(s),
        frame_span(s) == (soi, end),
        has_start(s),
        start_of(s) == soi,
        0 <= soi,
        soi + 4 <= end <= s.len(),
{
    lemma_start_of(s, soi);
    let eoi = choose|eoi: int| first_marker(s, soi, EOI, eoi);
    lemma_first_marker_unique(s, soi, EOI, end - 2, eoi);
    assert(!marker_at(s, soi, EOI));
    assert(!marker_at(s, soi + 1, EOI));
}

/// The frame that `frame_span` names is the first one.
pub proof fn lemma_span_is_first(s: Seq<u8>)
    requires
        has_frame(s),
    ensures
        first_frame(s, frame_span(s).0, frame_span(s).1),
{
}

/// A stream without a start marker, or with no end marker behind its
/// first start marker, holds no complete frame.
pub proof fn lemma_no_frame(s: Seq<u8>)
    requires
        no_marker(s, 0, s.len() as int, SOI) || (has_start(s) && no_marker(
            s,
            start_of(s),
            s.len() as int,
            EOI,
        )),
    ensures
        !has_frame(s),
{
    if has_frame(s) {
        lemma_span_is_first(s);
        let p = frame_span(s);
        assert(marker_at(s, p.0, SOI));
        assert(marker_at(s, p.1 - 2, EOI));
    }
}

/// A marker that is the first one in the part of the stream that has
/// been staged is the first one in the stream.
///
/// `staged + tail` is the stream `s` without its first `d` bytes; the
/// search began `from` bytes into the staged part.
pub proof fn lemma_first_in_stream(
    s: Seq<u8>,
    d: int,
    staged: Seq<u8>,
    tail: Seq<u8>,
    from: int,
    code: u8,
    i: int,
)
    requires
        0 <= d <= s.len(),
        s.skip(d) == staged + tail,
        0 <= from <= i,
        from <= staged.len(),
        first_marker(staged.skip(from), 0, code, i - from),
    ensures
        first_marker(s, d + from, code, d + i),
        d + i + 2 <= s.len(),
        i + 2 <= staged.len(),
{
    let cur = s.skip(d);
    let window = staged.skip(from);
    assert(marker_at(window, i - from, code));
    assert(window[i - from] == staged[i] && window[i - from + 1] == staged[i + 1]);
    assert(cur.len() == s.len() - d);
    assert(cur.len() == staged.len() + tail.len());
    assert(cur[i] == staged[i] && cur[i + 1] == staged[i + 1]);
    assert(cur[i] == s[d + i] && cur[i + 1] == s[d + i + 1]);
    assert(marker_at(s, d + i, code));
    assert forall|j: int| d + from <= j < d + i implies !marker_at(s, j, code) by {
        let w = j - d - from;
        assert(!marker_at(window, w, code));
        assert(window[w] == staged[j - d] && window[w + 1] == staged[j - d + 1]);
        assert(cur[j - d] == staged[j - d] && cur[j - d + 1] == staged[j - d + 1]);
        assert(cur[j - d] == s[j] && cur[j - d + 1] == s[j + 1]);
    }
}

/// Where the staged part of the stream holds no marker, the stream holds
/// none that lies wholly in that part.
pub proof fn lemma_none_in_stream(
    s: Seq<u8>,
    d: int,
    staged: Seq<u8>,
    tail: Seq<u8>,
    from: int,
    code: u8,
)
    requires
        0 <= d <= s.len(),
        s.skip(d) == staged + tail,
        0 <= from <= staged.len(),
        no_marker(staged.skip(from), 0, staged.len() - from, code),
    ensures
        no_marker(s, d + from, d + staged.len() - 1, code),
{
    let cur = s.skip(d);
    let window = staged.skip(from);
    assert(cur.len() == s.len() - d);
    assert(cur.len() == staged.len() + tail.len());
    assert forall|j: int| d + from <= j < d + staged.len() - 1 implies !marker_at(s, j, code) by {
        let w = j - d - from;
        assert(!marker_at(window, w, code));
        assert(window[w] == staged[j - d] && window[w + 1] == staged[j - d + 1]);
        assert(cur[j - d] == staged[j - d] && cur[j - d + 1] == staged[j - d + 1]);
        assert(cur[j - d] == s[j] && cur[j - d + 1] == s[j + 1]);
    }
}

/// A frame that is found whole in the staged beginning of a stream is
/// the first frame of the stream.
pub proof fn lemma_staged_frame(c: Seq<u8>, staged: Seq<u8>, ahead: Seq<u8>, k: int, e: int)
    requires
        c == staged + ahead,
        0 <= k <= staged.len(),
        first_marker(staged, 0, SOI, k),
        first_marker(staged.skip(k), 0, EOI, e - 2 - k),
    ensures
        first_frame(c, k, e),
        has_frame(c),
        frame_span(c) == (k, e),
        e <= staged.len(),
        c.subrange(k, e) == staged.subrange(k, e),
        staged.skip(e) + ahead == c.skip(e),
{
    assert(c.skip(0) =~= c);
    assert(staged.skip(0) =~= staged);
    lemma_first_in_stream(c, 0, staged, ahead, 0, SOI, k);
    lemma_first_in_stream(c, 0, staged, ahead, k, EOI, e - 2);
    lemma_frame_span(c, k, e);
    assert(c.subrange(k, e) =~= staged.subrange(k, e));
    assert(staged.skip(e) + ahead =~= c.skip(e));
}

/// A start marker in the staged beginning of a stream, with no end marker
/// staged behind it, is the first start marker of the stream, and no end
/// marker lies wholly in what is staged behind it.
pub proof fn lemma_staged_open(c: Seq<u8>, staged: Seq<u8>, ahead: Seq<u8>, k: int)
    requires
        c == staged + ahead,
        0 <= k <= staged.len(),
        first_marker(staged, 0, SOI, k),
        no_marker(staged.skip(k), 0, staged.len() - k, EOI),
    ensures
        has_start(c),
        start_of(c) == k,
        no_marker(c, k, staged.len() - 1, EOI),
        staged.skip(k) + ahead == c.skip(k),
{
    assert(c.skip(0) =~= c);
    assert(staged.skip(0) =~= staged);
    lemma_first_in_stream(c, 0, staged, ahead, 0, SOI, k);
    lemma_start_of(c, k);
    lemma_none_in_stream(c, 0, staged, ahead, k, EOI);
    assert(staged.skip(k) + ahead =~= c.skip(k));
}

/// Where the staged beginning of a stream holds no start marker, none
/// begins in it, unless its last byte is the first half of one.
pub proof fn lemma_staged_nothing(c: Seq<u8>, staged: Seq<u8>, ahead: Seq<u8>, keep: int)
    requires
        c == staged + ahead,
        no_marker(staged, 0, staged.len() as int, SOI),
        0 <= keep <= 1,
        keep <= staged.len(),
        keep == 0 && staged.len() > 0 ==> staged[staged.len() - 1] != 0xFF,
    ensures
        no_marker(c, 0, staged.len() - keep, SOI),
        staged.skip(staged.len() - keep) + ahead == c.skip(staged.len() - keep),
{
    assert(c.skip(0) =~= c);
    assert(staged.skip(0) =~= staged);
    lemma_none_in_stream(c, 0, staged, ahead, 0, SOI);
    let m = staged.len() as int;
    if keep == 0 && m > 0 {
        assert(c[m - 1] == staged[m - 1]);
        assert(!marker_at(c, m - 1, SOI));
    }
    assert(staged.skip(m - keep) + ahead =~= c.skip(m - keep));
}

/// Whether `f` is one frame and nothing else: it begins with a start
/// marker and its first end marker is its end.
pub open spec fn is_frame(f: Seq<u8>) -> bool {
    first_frame(f, 0, f.len() as int)
}

/// A frame that follows bytes without a start marker is the first frame
/// of the stream, whatever follows it.
pub proof fn lemma_frame_behind_garbage(garbage: Seq<u8>, frame: Seq<u8>, tail: Seq<u8>)
    requires
        no_marker(garbage, 0, garbage.len() as int, SOI),
        is_frame(frame),
    ensures
        ({
            let s = garbage + frame + tail;
            &&& has_frame(s)
            &&& frame_span(s) == (garbage.len() as int, (garbage.len() + frame.len()) as int)
            &&& s.subrange(frame_span(s).0, frame_span(s).1) == frame
            &&& s.skip(frame_span(s).1) == tail
        }),
{
    let s = garbage + frame + tail;
    let g = garbage.len() as int;
    let n = frame.len() as int;
    assert(marker_at(frame, 0, SOI));
    assert(marker_at(frame, n - 2, EOI));
    assert(s[g] == frame[0] && s[g + 1] == frame[1]);
    assert(s[g + n - 2] == frame[n - 2] && s[g + n - 1] == frame[n - 1]);
    assert forall|j: int| 0 <= j < g implies !marker_at(s, j, SOI) by {
        if j + 1 < g {
            assert(!marker_at(garbage, j, SOI));
            assert(s[j] == garbage[j] && s[j + 1] == garbage[j + 1]);
        } else {
            assert(s[j + 1] == frame[0]);
        }
    }
    assert forall|j: int| g <= j < g + n - 2 implies !marker_at(s, j, EOI) by {
        assert(!marker_at(frame, j - g, EOI));
        assert(s[j] == frame[j - g] && s[j + 1] == frame[j - g + 1]);
    }
    lemma_frame_span(s, g, g + n);
    assert(s.subrange(g, g + n) =~= frame);
    assert(s.skip(g + n) =~= tail);
}

/// A stream of bytes without a start marker, a frame and a second frame
/// holds exactly these two frames, in this order, and nothing behind
/// them.
pub proof fn lemma_two_frames(garbage: Seq<u8>, first: Seq<u8>, second: Seq<u8>)
    requires
        no_marker(garbage, 0, garbage.len() as int, SOI),
        is_frame(first),
        is_frame(second),
    ensures
        ({
            let s = garbage + first + second;
            let behind_first = s.skip(frame_span(s).1);
            let behind_second = behind_first.skip(frame_span(behind_first).1);
            &&& has_frame(s)
            &&& s.subrange(frame_span(s).0, frame_span(s).1) == first
            &&& has_frame(behind_first)
            &&& behind_first.subrange(frame_span(behind_first).0, frame_span(behind_first).1)
                == second
            &&& !has_frame(behind_second)
            &&& behind_second.len() == 0
        }),
{
    lemma_frame_behind_garbage(garbage, first, second);
    let nothing = Seq::<u8>::empty();
    lemma_frame_behind_garbage(nothing, second, nothing);
    assert(nothing + second + nothing =~= second);
    lemma_no_frame(nothing);
}

/// Markers of a stream with its beginning cut off are the markers of the
/// stream, moved.
pub proof fn lemma_marker_skipped(s: Seq<u8>, d: int, code: u8, j: int)
    requires
        0 <= d <= s.len(),
        0 <= j,
    ensures
        marker_at(s.skip(d), j, code) == marker_at(s, d + j, code),
{
}

/// The first marker of a stream with its beginning cut off is a first
/// marker of the stream, counted from the cut.
pub proof fn lemma_lift_first(s: Seq<u8>, d: int, code: u8, from: int, i: int)
    requires
        0 <= d <= s.len(),
        0 <= from,
        first_marker(s.skip(d), from, code, i),
    ensures
        first_marker(s, d + from, code, d + i),
{
    lemma_marker_skipped(s, d, code, i);
    assert forall|j: int| d + from <= j < d + i implies !marker_at(s, j, code) by {
        lemma_marker_skipped(s, d, code, j - d);
    }
}

/// Where a stream with its beginning cut off holds no marker, the stream
/// holds none either.
pub proof fn lemma_lift_none(s: Seq<u8>, d: int, code: u8, from: int, to: int)
    requires
        0 <= d <= s.len(),
        0 <= from,
        no_marker(s.skip(d), from, to, code),
    ensures
        no_marker(s, d + from, d + to, code),
{
    assert forall|j: int| d + from <= j < d + to implies !marker_at(s, j, code) by {
        lemma_marker_skipped(s, d, code, j - d);
    }
}

/// Looks for the marker `FF code` in `data[from..to]` and returns where
/// the first one begins.
pub fn find_marker(data: &[u8], from: usize, to: usize, code: u8) -> (r: Option<usize>)
    requires
        from <= to <= data@.len(),
    ensures
        match r {
            Some(i) => {
                &&& from <= i
                &&& i + 1 < to
                &&& first_marker(data@.subrange(from as int, to as int), 0, code, i - from)
            },
            None => no_marker(data@.subrange(from as int, to as int), 0, to - from, code),
        },
{
    let ghost window = data@.subrange(from as int, to as int);
    let mut i: usize = from;
    while i < to && to - i >= 2
        invariant
            from <= i <= to <= data@.len(),
            window == data@.subrange(from as int, to as int),
            forall|j: int| 0 <= j < i - from ==> !marker_at(window, j, code),
        decreases to - i,
    {
        if data[i] == 0xFF && data[i + 1] == code {
            assert(marker_at(window, i - from, code));
            return Some(i);
        }
        assert(!marker_at(window, i - from, code));
        i += 1;
    }
    None
}

} // verus!
