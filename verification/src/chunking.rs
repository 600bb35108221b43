//! The frames of a stream do not depend on how the stream was cut into reads.

use vstd::prelude::*;
use crate::framing::{
    delimiter_at,
    first_delimiter,
    frames,
    lemma_delimiter_from,
    lemma_first_delimiter_is,
    pending,
    NEWLINE,
};

verus! {

/// The bytes of all reads, one after the other.
pub open spec fn concat(chunks: Seq<Seq<u8>>) -> Seq<u8>
    decreases chunks.len(),
{
    if chunks.len() == 0 {
        Seq::<u8>::empty()
    } else {
        concat(chunks.drop_last()) + chunks.last()
    }
}

/// The frames that a reader hands out over a row of reads, each read fed to
/// what the one before left, starting from the bytes `held`.
pub open spec fn fed_frames(held: Seq<u8>, chunks: Seq<Seq<u8>>) -> Seq<Seq<u8>>
    decreases chunks.len(),
{
    if chunks.len() == 0 {
        Seq::<Seq<u8>>::empty()
    } else {
        fed_frames(held, chunks.drop_last()) + frames(
            fed_pending(held, chunks.drop_last()) + chunks.last(),
        )
    }
}

/// The bytes that a reader holds after a row of reads.
pub open spec fn fed_pending(held: Seq<u8>, chunks: Seq<Seq<u8>>) -> Seq<u8>
    decreases chunks.len(),
{
    if chunks.len() == 0 {
        held
    } else {
        pending(fed_pending(held, chunks.drop_last()) + chunks.last())
    }
}

/// The frames, each followed by its delimiter, as one stretch of bytes.
pub open spec fn with_delimiters(list: Seq<Seq<u8>>) -> Seq<u8>
    decreases list.len(),
{
    if list.len() == 0 {
        Seq::<u8>::empty()
    } else {
        list[0] + seq![NEWLINE, NEWLINE] + with_delimiters(list.drop_first())
    }
}

/// Bytes that arrive later change neither the first delimiter nor what
/// stands before it.
proof fn lemma_first_delimiter_append(a: Seq<u8>, b: Seq<u8>)
    requires
        first_delimiter(a) >= 0,
    ensures
        first_delimiter(a + b) == first_delimiter(a),
{
    let i = first_delimiter(a);
    lemma_delimiter_from(a, 0);
    assert forall|j: int| 0 <= j < i implies !delimiter_at(a + b, j) by {
        assert(!delimiter_at(a, j));
    }
    assert(delimiter_at(a + b, i));
    lemma_first_delimiter_is(a + b, i);
}

/// More bytes after a stretch add the frames that they complete: the frames
/// of the whole are the frames of the first part, then the frames of what
/// the first part left together with the rest.
pub proof fn lemma_frames_append(a: Seq<u8>, b: Seq<u8>)
    ensures
        frames(a + b) == frames(a) + frames(pending(a) + b),
        pending(a + b) == pending(pending(a) + b),
    decreases a.len(),
{
    let i = first_delimiter(a);
    lemma_delimiter_from(a, 0);
    if 0 <= i && i + 2 <= a.len() {
        lemma_first_delimiter_append(a, b);
        lemma_frames_append(a.skip(i + 2), b);
        assert((a + b).skip(i + 2) == a.skip(i + 2) + b);
        assert((a + b).take(i) == a.take(i));
        assert(frames(a + b) == seq![a.take(i)] + frames(a.skip(i + 2) + b));
        assert(frames(a + b) == seq![a.take(i)] + (frames(a.skip(i + 2)) + frames(
            pending(a) + b,
        )));
    } else {
        assert(frames(a) + frames(a + b) == frames(a + b));
    }
}

/// However a stream is cut into reads, a reader that starts empty hands out
/// the frames of the whole stream, in order, and is left with what follows
/// the last delimiter.
pub proof fn lemma_chunking(chunks: Seq<Seq<u8>>)
    ensures
        fed_frames(Seq::<u8>::empty(), chunks) == frames(concat(chunks)),
        fed_pending(Seq::<u8>::empty(), chunks) == pending(concat(chunks)),
    decreases chunks.len(),
{
    if chunks.len() > 0 {
        lemma_chunking(chunks.drop_last());
        lemma_frames_append(concat(chunks.drop_last()), chunks.last());
    }
}

/// The frames are what splitting at the delimiters gives: put back together
/// with their delimiters and followed by the rest, they are the stream; no
/// frame holds a delimiter, and neither does the rest.
pub proof fn lemma_frames_split(s: Seq<u8>)
    ensures
        with_delimiters(frames(s)) + pending(s) == s,
        first_delimiter(pending(s)) == -1,
        forall|k: int| 0 <= k < frames(s).len() ==> first_delimiter(#[trigger] frames(s)[k]) == -1,
    decreases s.len(),
{
    let i = first_delimiter(s);
    lemma_delimiter_from(s, 0);
    if 0 <= i && i + 2 <= s.len() {
        let rest = s.skip(i + 2);
        lemma_frames_split(rest);
        let list = frames(s);
        assert(list[0] == s.take(i));
        assert(list.drop_first() == frames(rest));
        assert(s.take(i) + seq![NEWLINE, NEWLINE] + rest == s);
        assert(with_delimiters(list) + pending(s) == s.take(i) + seq![NEWLINE, NEWLINE] + (
        with_delimiters(frames(rest)) + pending(rest)));
        lemma_delimiter_from(s.take(i), 0);
        assert(first_delimiter(s.take(i)) == -1) by {
            let d = first_delimiter(s.take(i));
            if d != -1 {
                assert(delimiter_at(s.take(i), d));
                assert(delimiter_at(s, d));
            }
        }
        assert forall|k: int| 0 <= k < list.len() implies first_delimiter(#[trigger] list[k])
            == -1 by {
            if k > 0 {
                assert(list[k] == frames(rest)[k - 1]);
            }
        }
    } else {
        assert(with_delimiters(frames(s)) + s == s);
    }
}

/// A body followed by the delimiter is read back as that one frame, with
/// nothing left over, where the body holds no delimiter and does not end in
/// a newline.
pub proof fn lemma_frame_one(body: Seq<u8>)
    requires
        first_delimiter(body) == -1,
        body.len() == 0 || body.last() != NEWLINE,
    ensures
        frames(body + seq![NEWLINE, NEWLINE]) == seq![body],
        pending(body + seq![NEWLINE, NEWLINE]) == Seq::<u8>::empty(),
{
    let wire = body + seq![NEWLINE, NEWLINE];
    let n = body.len() as int;
    lemma_delimiter_from(body, 0);
    assert forall|j: int| 0 <= j < n implies !delimiter_at(wire, j) by {
        if j + 1 < n {
            assert(!delimiter_at(body, j));
        } else {
            assert(wire[j] == body.last());
        }
    }
    assert(delimiter_at(wire, n));
    lemma_first_delimiter_is(wire, n);
    assert(wire.take(n) == body);
    assert(wire.skip(n + 2) == Seq::<u8>::empty());
    assert(frames(Seq::<u8>::empty()) == Seq::<Seq<u8>>::empty());
    assert(frames(wire) == seq![wire.take(n)] + frames(wire.skip(n + 2)));
    assert(pending(Seq::<u8>::empty()) == Seq::<u8>::empty());
    assert(pending(wire) == pending(wire.skip(n + 2)));
}

} // verus!
