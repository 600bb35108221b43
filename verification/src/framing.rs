//! Cutting a stream of bytes into frames.
//!
//! A frame ends with two newline bytes in a row. The reader keeps the bytes
//! that have arrived and not yet been handed out, and hands out each frame,
//! without its two newlines, as soon as they are there.

use vstd::prelude::*;
use vstd::string::StringSliceAdditionalSpecFns;

verus! {

/// The newline byte.
pub const NEWLINE: u8 = 10;

/// Two newline bytes stand at positions `i` and `i + 1`.
pub open spec fn delimiter_at(s: Seq<u8>, i: int) -> bool {
    0 <= i && i + 1 < s.len() && s[i] == NEWLINE && s[i + 1] == NEWLINE
}

/// The first position at or after `from` where a delimiter stands, or -1.
pub open spec fn delimiter_from(s: Seq<u8>, from: int) -> int
    decreases s.len() - from,
{
    if from < 0 || from + 1 >= s.len() {
        -1
    } else if delimiter_at(s, from) {
        from
    } else {
        delimiter_from(s, from + 1)
    }
}

/// The position of the first delimiter, or -1 where there is none.
pub open spec fn first_delimiter(s: Seq<u8>) -> int {
    delimiter_from(s, 0)
}

/// The complete frames in a stretch of bytes, in order: the bytes before the
/// first delimiter, then the frames in what follows that delimiter.
pub open spec fn frames(s: Seq<u8>) -> Seq<Seq<u8>>
    decreases s.len(),
{
    let i = first_delimiter(s);
    if 0 <= i && i + 2 <= s.len() {
        seq![s.take(i)] + frames(s.skip(i + 2))
    } else {
        Seq::<Seq<u8>>::empty()
    }
}

/// What is left after the last complete frame: the start of a frame that has
/// not ended yet.
pub open spec fn pending(s: Seq<u8>) -> Seq<u8>
    decreases s.len(),
{
    let i = first_delimiter(s);
    if 0 <= i && i + 2 <= s.len() {
        pending(s.skip(i + 2))
    } else {
        s
    }
}

/// What `delimiter_from` finds is a delimiter with none between `from` and
/// it; where it finds nothing, there is none from `from` on.
pub proof fn lemma_delimiter_from(s: Seq<u8>, from: int)
    requires
        0 <= from,
    ensures
        ({
            let i = delimiter_from(s, from);
            &&& i == -1 || (from <= i && delimiter_at(s, i))
            &&& forall|j: int| from <= j && (i == -1 || j < i) ==> !delimiter_at(s, j)
        }),
    decreases s.len() - from,
{
    if from + 1 < s.len() && !delimiter_at(s, from) {
        lemma_delimiter_from(s, from + 1);
    }
}

/// A position is the first delimiter exactly when a delimiter stands there
/// and none before it.
pub proof fn lemma_first_delimiter_is(s: Seq<u8>, i: int)
    requires
        delimiter_at(s, i),
        forall|j: int| 0 <= j < i ==> !delimiter_at(s, j),
    ensures
        first_delimiter(s) == i,
{
    lemma_delimiter_from(s, 0);
}

/// The byte contents of a list of frames, in order.
pub open spec fn frame_views(list: Seq<Vec<u8>>) -> Seq<Seq<u8>> {
    list.map_values(|f: Vec<u8>| f@)
}

/// The bytes that go on the wire for one message: its text as UTF-8, then
/// the delimiter.
pub fn framed(message: &str) -> (bytes: Vec<u8>)
    ensures
        bytes@ == message.spec_bytes() + seq![NEWLINE, NEWLINE],
{
    let mut bytes: Vec<u8> = Vec::new();
    bytes.extend_from_slice(message.as_bytes());
    bytes.push(NEWLINE);
    bytes.push(NEWLINE);
    assert(bytes@ == message.spec_bytes() + seq![NEWLINE, NEWLINE]);
    bytes
}

/// The bytes of one connection that have arrived and are not yet handed out.
pub struct FrameReader {
    buffer: Vec<u8>,
}

impl View for FrameReader {
    type V = Seq<u8>;

    closed spec fn view(&self) -> Seq<u8> {
        self.buffer@
    }
}

impl FrameReader {
    /// A reader that holds no bytes.
    pub fn new() -> (reader: FrameReader)
        ensures
            reader@ == Seq::<u8>::empty(),
    {
        FrameReader { buffer: Vec::new() }
    }

    /// Takes in the bytes of one read.
    pub fn push(&mut self, chunk: &[u8])
        ensures
            final(self)@ == old(self)@ + chunk@,
    {
        self.buffer.extend_from_slice(chunk);
    }

    /// Where the first delimiter stands in the bytes held, if there is one.
    fn find_delimiter(&self) -> (found: Option<usize>)
        ensures
            match found {
                Some(i) => i == first_delimiter(self@) && i + 2 <= self@.len(),
                None => first_delimiter(self@) == -1,
            },
    {
        let n = self.buffer.len();
        if n < 2 {
            return None;
        }
        let mut i: usize = 0;
        while i < n - 1
            invariant
                n == self.buffer@.len(),
                n >= 2,
                i <= n - 1,
                delimiter_from(self.buffer@, 0) == delimiter_from(self.buffer@, i as int),
            decreases n - i,
        {
            if self.buffer[i] == NEWLINE && self.buffer[i + 1] == NEWLINE {
                return Some(i);
            }
            i = i + 1;
        }
        None
    }

    /// Hands out the first complete frame, without its delimiter, and drops
    /// both from the bytes held. Without a complete frame nothing changes.
    pub fn next_frame(&mut self) -> (frame: Option<Vec<u8>>)
        ensures
            match frame {
                Some(f) => {
                    let i = first_delimiter(old(self)@);
                    &&& 0 <= i && i + 2 <= old(self)@.len()
                    &&& f@ == old(self)@.take(i)
                    &&& final(self)@ == old(self)@.skip(i + 2)
                },
                None => first_delimiter(old(self)@) == -1 && final(self)@ == old(self)@,
            },
    {
        match self.find_delimiter() {
            None => None,
            Some(i) => {
                assert(i + 2 <= self.buffer.len());
                let mut rest = self.buffer.split_off(i + 2);
                self.buffer.truncate(i);
                std::mem::swap(&mut self.buffer, &mut rest);
                proof {
                    assert(rest@ == old(self)@.take(i as int));
                    assert(self.buffer@ == old(self)@.skip(i + 2));
                }
                Some(rest)
            },
        }
    }

    /// Takes in the bytes of one read and hands out every frame that is now
    /// complete, in order. What follows the last delimiter stays for the next
    /// read.
    pub fn feed(&mut self, chunk: &[u8]) -> (complete: Vec<Vec<u8>>)
        ensures
            frame_views(complete@) == frames(old(self)@ + chunk@),
            final(self)@ == pending(old(self)@ + chunk@),
    {
        self.push(chunk);
        let ghost all = self@;
        let mut complete: Vec<Vec<u8>> = Vec::new();
        assert(frame_views(complete@) + frames(self@) == frames(all));
        loop
            invariant
                frame_views(complete@) + frames(self@) == frames(all),
                pending(self@) == pending(all),
            ensures
                frame_views(complete@) == frames(all),
                self@ == pending(all),
            decreases self@.len(),
        {
            let ghost before = frame_views(complete@);
            let ghost held = self@;
            match self.next_frame() {
                Some(frame) => {
                    complete.push(frame);
                    proof {
                        assert(frame_views(complete@) == before.push(frame@));
                        assert(frames(held) == seq![frame@] + frames(self@));
                        assert(frame_views(complete@) + frames(self@) == before + frames(held));
                    }
                },
                None => {
                    assert(frames(self@) == Seq::<Seq<u8>>::empty());
                    assert(frame_views(complete@) + frames(self@) == frame_views(complete@));
                    break;
                },
            }
        }
        complete
    }
}

} // verus!
