//! Reading a shared byte buffer in chunks, as the custom videos (channel
//! unavailable, connections exhausted) are streamed.

use std::sync::Arc;
use bytes::Bytes;
use vstd::prelude::*;

verus! {

/// The size of the chunks handed out.
pub const CHUNK_SIZE: usize = 8192;

/// `bytes::Bytes`, the immutable byte buffer the streams hand out; its
/// contents are known only through `bytes_contents`.
#[verifier::external_type_specification]
#[verifier::external_body]
pub struct ExBytes(Bytes);

/// The bytes a `Bytes` value holds (what `Deref<Target = [u8]>` shows).
pub uninterp spec fn bytes_contents(b: Bytes) -> Seq<u8>;

/// `bytes::Bytes::copy_from_slice`: a `Bytes` value holding a copy of the
/// slice.
#[verifier::external_body]
pub(crate) fn bytes_copy_from_slice(data: &[u8]) -> (r: Bytes)
    ensures
        bytes_contents(r) == data@,
{
    Bytes::copy_from_slice(data)
}

/// The bytes of a `Bytes` value as a slice (`Deref` of `bytes::Bytes`).
#[verifier::external_body]
pub(crate) fn bytes_as_slice(b: &Bytes) -> (r: &[u8])
    ensures
        r@ == bytes_contents(*b),
{
    b.as_ref()
}

/// The end of the chunk that starts at `pos` in a buffer of `len` bytes.
pub open spec fn chunk_end(pos: int, len: int) -> int {
    if len - pos > CHUNK_SIZE { pos + CHUNK_SIZE } else { len }
}

/// The chunks a reader at `pos` hands out until the buffer is consumed.
pub open spec fn chunks_from(data: Seq<u8>, pos: int) -> Seq<Seq<u8>>
    decreases data.len() - pos,
{
    if pos < 0 || pos >= data.len() {
        Seq::<Seq<u8>>::empty()
    } else {
        seq![data.subrange(pos, chunk_end(pos, data.len() as int))] + chunks_from(data, chunk_end(pos, data.len() as int))
    }
}

/// Hands out a shared buffer in chunks of at most `CHUNK_SIZE` bytes, once.
#[derive(Clone)]
pub struct ChunkedBuffer {
    buffer: Arc<Vec<u8>>,
    current_pos: usize,
}

impl ChunkedBuffer {
    /// The bytes of the buffer.
    pub closed spec fn data(&self) -> Seq<u8> {
        self.buffer@
    }

    /// The position of the next chunk.
    pub closed spec fn pos(&self) -> usize {
        self.current_pos
    }

    /// A reader at the start of `buffer`.
    pub fn new(buffer: Arc<Vec<u8>>) -> (r: Self)
        ensures
            r.data() == buffer@,
            r.pos() == 0,
    {
        ChunkedBuffer { buffer, current_pos: 0 }
    }

    /// The next chunk: the bytes from the position up to `CHUNK_SIZE` bytes
    /// further or to the end; None once the buffer is consumed.
    pub fn next_chunk(&mut self) -> (r: Option<Bytes>)
        ensures
            final(self).data() == old(self).data(),
            match r {
                None => old(self).pos() >= old(self).data().len() && final(self).pos() == old(self).pos(),
                Some(b) => {
                    &&& old(self).pos() < old(self).data().len()
                    &&& final(self).pos() == chunk_end(old(self).pos() as int, old(self).data().len() as int)
                    &&& bytes_contents(b) == old(self).data().subrange(old(self).pos() as int, final(self).pos() as int)
                },
            },
    {
        let buffer_len = self.buffer.len();
        let current_pos = self.current_pos;
        if buffer_len == 0 || current_pos >= buffer_len {
            return None;
        }
        let remaining = if buffer_len - current_pos < CHUNK_SIZE { buffer_len - current_pos } else { CHUNK_SIZE };
        let start = current_pos;
        let end = current_pos + remaining;
        let chunk = vstd::slice::slice_subrange(self.buffer.as_slice(), start, end);
        let bytes = bytes_copy_from_slice(chunk);
        self.current_pos = end;
        Some(bytes)
    }
}

/// The concatenation of a list of chunks.
pub open spec fn concat_chunks(cs: Seq<Seq<u8>>) -> Seq<u8>
    decreases cs.len(),
{
    if cs.len() == 0 {
        Seq::<u8>::empty()
    } else {
        cs[0] + concat_chunks(cs.drop_first())
    }
}

/// Reading a buffer to its end hands out every byte once, in order: the
/// chunks from a position concatenate to the rest of the buffer, and each
/// chunk holds between 1 and `CHUNK_SIZE` bytes.
pub proof fn lemma_chunks_cover_buffer(data: Seq<u8>, pos: int)
    requires
        0 <= pos <= data.len(),
    ensures
        concat_chunks(chunks_from(data, pos)) == data.subrange(pos, data.len() as int),
        forall|i: int| 0 <= i < chunks_from(data, pos).len()
            ==> 1 <= (#[trigger] chunks_from(data, pos)[i]).len() <= CHUNK_SIZE,
    decreases data.len() - pos,
{
    if pos < data.len() {
        let e = chunk_end(pos, data.len() as int);
        lemma_chunks_cover_buffer(data, e);
        let cs = chunks_from(data, pos);
        assert(cs.drop_first() =~= chunks_from(data, e));
        assert(data.subrange(pos, e) + data.subrange(e, data.len() as int) =~= data.subrange(pos, data.len() as int));
        assert forall|i: int| 0 <= i < cs.len() implies 1 <= (#[trigger] cs[i]).len() <= CHUNK_SIZE by {
            if i > 0 {
                assert(cs[i] == chunks_from(data, e)[i - 1]);
            }
        }
    } else {
        assert(data.subrange(pos, data.len() as int) =~= Seq::<u8>::empty());
    }
}

/// The position of a reader that started at the beginning of `data`, after
/// `n` calls of `next_chunk` (each call moves it as that method says).
pub open spec fn pos_after(data: Seq<u8>, n: nat) -> int
    decreases n,
{
    if n == 0 {
        0
    } else {
        let p = pos_after(data, (n - 1) as nat);
        if p < data.len() { chunk_end(p, data.len() as int) } else { p }
    }
}

/// The chunks from a position: how many there are, and that all but the
/// last are full.
proof fn lemma_chunk_count(data: Seq<u8>, pos: int)
    requires
        0 <= pos <= data.len(),
    ensures
        chunks_from(data, pos).len() == (data.len() - pos + CHUNK_SIZE - 1) / (CHUNK_SIZE as int),
        forall|i: int| 0 <= i < chunks_from(data, pos).len() - 1
            ==> (#[trigger] chunks_from(data, pos)[i]).len() == CHUNK_SIZE,
    decreases data.len() - pos,
{
    if pos < data.len() {
        let e = chunk_end(pos, data.len() as int);
        lemma_chunk_count(data, e);
        let cs = chunks_from(data, pos);
        assert forall|i: int| 0 <= i < cs.len() - 1 implies (#[trigger] cs[i]).len() == CHUNK_SIZE by {
            if i > 0 {
                assert(cs[i] == chunks_from(data, e)[i - 1]);
            }
        }
    }
}

/// After `n` reads from the beginning, the chunks still to come are those
/// of `chunks_from(data, 0)` from the `n`-th on; once they are all handed
/// out the reader stands at the end.
proof fn lemma_pos_after(data: Seq<u8>, n: nat)
    ensures
        0 <= pos_after(data, n) <= data.len(),
        n <= chunks_from(data, 0).len() ==> chunks_from(data, pos_after(data, n))
            == chunks_from(data, 0).subrange(n as int, chunks_from(data, 0).len() as int),
        n >= chunks_from(data, 0).len() ==> pos_after(data, n) == data.len(),
    decreases n,
{
    let cs = chunks_from(data, 0);
    if n == 0 {
        assert(cs.subrange(0, cs.len() as int) =~= cs);
        if cs.len() == 0 {
            assert(data.len() == 0);
        }
    } else {
        lemma_pos_after(data, (n - 1) as nat);
        let p = pos_after(data, (n - 1) as nat);
        if n - 1 < cs.len() {
            assert(chunks_from(data, p).len() > 0);
            assert(p < data.len());
            let e = chunk_end(p, data.len() as int);
            assert(chunks_from(data, e) =~= chunks_from(data, p).drop_first());
            assert(chunks_from(data, e) =~= cs.subrange(n as int, cs.len() as int));
            if n >= cs.len() {
                assert(chunks_from(data, e).len() == 0);
                assert(e >= data.len());
            }
        }
    }
}

/// Reading a buffer from its beginning with successive calls of
/// `next_chunk`: while chunks remain, the call after `n` calls hands out the
/// `n`-th chunk of `chunks_from(data, 0)`; after them every call hands out
/// nothing. There are `ceil(len / CHUNK_SIZE)` chunks, all of `CHUNK_SIZE`
/// bytes but the last, which holds 1 to `CHUNK_SIZE` bytes, and together
/// they are the buffer.
pub proof fn lemma_successive_reads(data: Seq<u8>, n: nat)
    ensures
        n < chunks_from(data, 0).len() ==> {
            &&& pos_after(data, n) < data.len()
            &&& data.subrange(pos_after(data, n), chunk_end(pos_after(data, n), data.len() as int))
                == chunks_from(data, 0)[n as int]
        },
        n >= chunks_from(data, 0).len() ==> pos_after(data, n) >= data.len(),
        chunks_from(data, 0).len() == (data.len() + CHUNK_SIZE - 1) / (CHUNK_SIZE as int),
        forall|i: int| 0 <= i < chunks_from(data, 0).len() - 1
            ==> (#[trigger] chunks_from(data, 0)[i]).len() == CHUNK_SIZE,
        forall|i: int| 0 <= i < chunks_from(data, 0).len()
            ==> 1 <= (#[trigger] chunks_from(data, 0)[i]).len() <= CHUNK_SIZE,
        concat_chunks(chunks_from(data, 0)) == data,
{
    lemma_pos_after(data, n);
    lemma_chunk_count(data, 0);
    lemma_chunks_cover_buffer(data, 0);
    assert(data.subrange(0, data.len() as int) =~= data);
    let cs = chunks_from(data, 0);
    if n < cs.len() {
        let p = pos_after(data, n);
        assert(chunks_from(data, p).len() > 0);
        assert(chunks_from(data, p)[0] == cs[n as int]);
    }
}

} // verus!
