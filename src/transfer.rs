//! File-transfer framing. File content travels as frames: a two-byte
//! big-endian length followed by that many content bytes. A frame of length
//! zero marks the end of the file.

use vstd::prelude::*;
use crate::cipher::{apply_keystream, lemma_cipher_round_trip};

verus! {

/// Largest number of content bytes that one frame carries.
pub const CHUNK_SIZE: usize = 1024;

/// The frame that carries `p`; for an empty `p`, the end marker.
pub open spec fn frame(p: Seq<u8>) -> Seq<u8> {
    seq![(p.len() / 256) as u8, (p.len() % 256) as u8] + p
}

/// The bytes sent for a file read as `chunks`: one frame per chunk, then the
/// end marker.
pub open spec fn frames(chunks: Seq<Seq<u8>>) -> Seq<u8>
    decreases chunks.len(),
{
    if chunks.len() == 0 {
        frame(Seq::empty())
    } else {
        frame(chunks[0]) + frames(chunks.drop_first())
    }
}

/// The chunks joined in order.
pub open spec fn flatten(chunks: Seq<Seq<u8>>) -> Seq<u8>
    decreases chunks.len(),
{
    if chunks.len() == 0 {
        Seq::empty()
    } else {
        chunks[0] + flatten(chunks.drop_first())
    }
}

/// Frames the bytes of one chunk; an empty chunk gives the end marker.
pub fn encode_frame(chunk: &[u8]) -> (r: Vec<u8>)
    requires
        chunk@.len() <= CHUNK_SIZE,
    ensures
        r@ == frame(chunk@),
{
    let n: usize = chunk.len();
    let mut out: Vec<u8> = Vec::with_capacity(n + 2);
    out.push((n / 256) as u8);
    out.push((n % 256) as u8);
    let mut i: usize = 0;
    while i < n
        invariant
            n == chunk@.len(),
            i <= n,
            out@ =~= seq![(n / 256) as u8, (n % 256) as u8] + chunk@.take(i as int),
        decreases n - i,
    {
        out.push(chunk[i]);
        i = i + 1;
        assert(out@ =~= seq![(n / 256) as u8, (n % 256) as u8] + chunk@.take(i as int));
    }
    assert(chunk@.take(n as int) =~= chunk@);
    out
}

/// Receiving side of the framing: reassembles file content from the deciphered
/// byte stream, however that stream is split into reads.
pub struct FrameDecoder {
    /// The first byte of a length header has been read.
    pub header_started: bool,
    /// That first byte, while the header is incomplete.
    pub high: u8,
    /// Content bytes still owed by the current frame.
    pub remaining: u16,
    /// The end marker has been read.
    pub done: bool,
}

/// A decoder that expects a frame header.
pub open spec fn decoder_between_frames() -> FrameDecoder {
    FrameDecoder { header_started: false, high: 0, remaining: 0, done: false }
}

/// A decoder owed `k` more content bytes of the current frame.
pub open spec fn decoder_in_frame(k: u16) -> FrameDecoder {
    FrameDecoder { header_started: false, high: 0, remaining: k, done: false }
}

/// A decoder that has read the end marker.
pub open spec fn decoder_finished() -> FrameDecoder {
    FrameDecoder { header_started: false, high: 0, remaining: 0, done: true }
}

/// One byte of input: the next decoder state and the content it yields.
pub open spec fn decode_step(d: FrameDecoder, b: u8) -> (FrameDecoder, Seq<u8>) {
    if d.done {
        (d, Seq::empty())
    } else if d.remaining > 0 {
        (FrameDecoder { remaining: (d.remaining - 1) as u16, ..d }, seq![b])
    } else if !d.header_started {
        (FrameDecoder { header_started: true, high: b, ..d }, Seq::empty())
    } else {
        let len = d.high as int * 256 + b as int;
        if len == 0 {
            (decoder_finished(), Seq::empty())
        } else {
            (decoder_in_frame(len as u16), Seq::empty())
        }
    }
}

/// The decoder state and the content yielded after reading `s` from `d`.
pub open spec fn decode_run(d: FrameDecoder, s: Seq<u8>) -> (FrameDecoder, Seq<u8>)
    decreases s.len(),
{
    if s.len() == 0 {
        (d, Seq::empty())
    } else {
        let prev = decode_run(d, s.drop_last());
        let next = decode_step(prev.0, s.last());
        (next.0, prev.1 + next.1)
    }
}

impl FrameDecoder {
    /// A decoder at the start of a transfer.
    pub fn new() -> (r: FrameDecoder)
        ensures
            r == decoder_between_frames(),
    {
        FrameDecoder { header_started: false, high: 0, remaining: 0, done: false }
    }

    /// Whether the end marker has been read.
    pub fn is_done(&self) -> (r: bool)
        ensures
            r == self.done,
    {
        self.done
    }

    /// Reads `input` up to and including the end marker, if it comes. Returns
    /// the content bytes found and how many input bytes were read; bytes after
    /// the end marker are left unread.
    pub fn feed(&mut self, input: &[u8]) -> (r: (Vec<u8>, usize))
        ensures
            r.1 <= input@.len(),
            (*final(self), r.0@) == decode_run(*old(self), input@.take(r.1 as int)),
            r.1 == input@.len() || final(self).done,
            forall|j: int| 0 <= j < r.1 ==> !(#[trigger] decode_run(*old(self), input@.take(j))).0.done,
    {
        let ghost start: FrameDecoder = *self;
        let mut out: Vec<u8> = Vec::new();
        let mut i: usize = 0;
        while i < input.len() && !self.done
            invariant
                i <= input@.len(),
                (*self, out@) == decode_run(start, input@.take(i as int)),
                forall|j: int| 0 <= j < i ==> !(#[trigger] decode_run(start, input@.take(j))).0.done,
            decreases input@.len() - i,
        {
            let b: u8 = input[i];
            let ghost before: Seq<u8> = out@;
            if self.remaining > 0 {
                self.remaining = self.remaining - 1;
                out.push(b);
            } else if !self.header_started {
                self.header_started = true;
                self.high = b;
            } else {
                let len: u16 = (self.high as u16) * 256 + (b as u16);
                self.header_started = false;
                self.high = 0;
                if len == 0 {
                    self.done = true;
                } else {
                    self.remaining = len;
                }
            }
            proof {
                assert(input@.take(i + 1).drop_last() =~= input@.take(i as int));
                assert(input@.take(i + 1).last() == b);
                let prev = decode_run(start, input@.take(i as int));
                assert(out@ =~= prev.1 + decode_step(prev.0, b).1);
            }
            i = i + 1;
        }
        (out, i)
    }
}

proof fn lemma_decode_concat(d: FrameDecoder, a: Seq<u8>, b: Seq<u8>)
    ensures
        decode_run(d, a + b) == (
            decode_run(decode_run(d, a).0, b).0,
            decode_run(d, a).1 + decode_run(decode_run(d, a).0, b).1,
        ),
    decreases b.len(),
{
    let mid = decode_run(d, a).0;
    if b.len() == 0 {
        assert(a + b =~= a);
        assert(decode_run(d, a).1 + Seq::<u8>::empty() =~= decode_run(d, a).1);
    } else {
        lemma_decode_concat(d, a, b.drop_last());
        assert((a + b).drop_last() =~= a + b.drop_last());
        assert((a + b).last() == b.last());
        let prev = decode_run(mid, b.drop_last());
        let next = decode_step(prev.0, b.last());
        assert(decode_run(d, a).1 + prev.1 + next.1 =~= decode_run(d, a).1 + (prev.1 + next.1));
    }
}

proof fn lemma_decode_content(k: u16, p: Seq<u8>)
    requires
        p.len() <= k,
    ensures
        decode_run(decoder_in_frame(k), p) == (decoder_in_frame((k - p.len()) as u16), p),
    decreases p.len(),
{
    if p.len() > 0 {
        lemma_decode_content(k, p.drop_last());
        assert(p.drop_last() + seq![p.last()] =~= p);
    }
}

proof fn lemma_decode_frame(p: Seq<u8>)
    requires
        p.len() <= CHUNK_SIZE,
    ensures
        decode_run(decoder_between_frames(), frame(p)) == (
            if p.len() == 0 { decoder_finished() } else { decoder_between_frames() },
            p,
        ),
{
    let start = decoder_between_frames();
    let header = seq![(p.len() / 256) as u8, (p.len() % 256) as u8];
    lemma_decode_concat(start, header, p);
    assert(header.drop_last() =~= seq![(p.len() / 256) as u8]);
    assert(seq![(p.len() / 256) as u8].drop_last() =~= Seq::<u8>::empty());
    let len = ((p.len() / 256) as u8) as int * 256 + ((p.len() % 256) as u8) as int;
    assert(len == p.len());
    let one = seq![(p.len() / 256) as u8];
    assert(one.drop_last() =~= Seq::<u8>::empty());
    assert(decode_run(start, Seq::<u8>::empty()) == (start, Seq::<u8>::empty()));
    let after_high = FrameDecoder { header_started: true, high: (p.len() / 256) as u8, ..start };
    assert(decode_run(start, one) == (after_high, Seq::<u8>::empty() + Seq::<u8>::empty()));
    let after_header = if p.len() == 0 { decoder_finished() } else { decoder_in_frame(p.len() as u16) };
    assert(decode_step(after_high, (p.len() % 256) as u8) == (after_header, Seq::<u8>::empty()));
    assert(decode_run(start, header).0 == after_header);
    if p.len() == 0 {
        assert(p =~= Seq::<u8>::empty());
        assert(decode_run(decoder_finished(), p) == (decoder_finished(), Seq::<u8>::empty()));
    } else {
        lemma_decode_content(p.len() as u16, p);
        assert(decoder_in_frame(0) == start);
    }
    assert(Seq::<u8>::empty() + Seq::<u8>::empty() + Seq::<u8>::empty() + p =~= p);
}

proof fn lemma_decode_frames(chunks: Seq<Seq<u8>>)
    requires
        forall|i: int| 0 <= i < chunks.len() ==> 0 < (#[trigger] chunks[i]).len() <= CHUNK_SIZE,
    ensures
        decode_run(decoder_between_frames(), frames(chunks)) == (decoder_finished(), flatten(chunks)),
    decreases chunks.len(),
{
    if chunks.len() == 0 {
        lemma_decode_frame(Seq::empty());
    } else {
        let rest = chunks.drop_first();
        assert forall|i: int| 0 <= i < rest.len() implies 0 < (#[trigger] rest[i]).len() <= CHUNK_SIZE by {
            assert(rest[i] == chunks[i + 1]);
        }
        lemma_decode_frames(rest);
        lemma_decode_frame(chunks[0]);
        lemma_decode_concat(decoder_between_frames(), frame(chunks[0]), frames(rest));
    }
}

/// A file sent as frames of non-empty chunks, enciphered, then deciphered with
/// the same session key and decoded from the start, comes back byte for byte,
/// and the decoder ends having read the end marker.
pub proof fn lemma_transfer_round_trip(session_key: u64, chunks: Seq<Seq<u8>>)
    requires
        forall|i: int| 0 <= i < chunks.len() ==> 0 < (#[trigger] chunks[i]).len() <= CHUNK_SIZE,
    ensures
        decode_run(
            decoder_between_frames(),
            apply_keystream(session_key, apply_keystream(session_key, frames(chunks))),
        ) == (decoder_finished(), flatten(chunks)),
{
    lemma_cipher_round_trip(session_key, frames(chunks));
    lemma_decode_frames(chunks);
}

/// A file's content cut into chunks of `CHUNK_SIZE` bytes, the last one
/// shorter if the size is not a multiple; no chunk for an empty file.
pub open spec fn chunks_of(content: Seq<u8>) -> Seq<Seq<u8>>
    decreases content.len(),
{
    if content.len() == 0 {
        Seq::empty()
    } else if content.len() <= CHUNK_SIZE {
        seq![content]
    } else {
        seq![content.take(CHUNK_SIZE as int)] + chunks_of(content.skip(CHUNK_SIZE as int))
    }
}

proof fn lemma_chunks_of(content: Seq<u8>)
    ensures
        flatten(chunks_of(content)) == content,
        forall|i: int| 0 <= i < chunks_of(content).len() ==> 0 < (#[trigger] chunks_of(content)[i]).len() <= CHUNK_SIZE,
    decreases content.len(),
{
    if content.len() == 0 {
    } else if content.len() <= CHUNK_SIZE {
        let c = seq![content];
        assert(c.drop_first() =~= Seq::<Seq<u8>>::empty());
        assert(flatten(c) == c[0] + flatten(c.drop_first()));
        assert(flatten(c) =~= content);
    } else {
        let rest = content.skip(CHUNK_SIZE as int);
        lemma_chunks_of(rest);
        let c = seq![content.take(CHUNK_SIZE as int)] + chunks_of(rest);
        assert(c.drop_first() =~= chunks_of(rest));
        assert(c[0] == content.take(CHUNK_SIZE as int));
        assert(flatten(c) == c[0] + flatten(c.drop_first()));
        assert(content.take(CHUNK_SIZE as int) + rest =~= content);
        assert forall|i: int| 0 <= i < c.len() implies 0 < (#[trigger] c[i]).len() <= CHUNK_SIZE by {
            if i > 0 {
                assert(c[i] == chunks_of(rest)[i - 1]);
            }
        }
    }
}

/// A file sent in chunks of `CHUNK_SIZE` bytes and received with the same
/// session key comes back byte for byte, whatever its size, and the receiver
/// ends having read the end marker.
pub proof fn lemma_file_round_trip(session_key: u64, content: Seq<u8>)
    ensures
        decode_run(
            decoder_between_frames(),
            apply_keystream(session_key, apply_keystream(session_key, frames(chunks_of(content)))),
        ) == (decoder_finished(), content),
{
    lemma_chunks_of(content);
    lemma_transfer_round_trip(session_key, chunks_of(content));
}

} // verus!
