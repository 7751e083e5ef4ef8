//! Endless streams of a short video: the frame is handed out in chunks and
//! starts over when it ends.

use std::sync::Arc;
use bytes::Bytes;
use vstd::prelude::*;
use crate::chunked_buffer::{bytes_contents, bytes_copy_from_slice, chunk_end, CHUNK_SIZE};
use crate::text::{contains_seq, str_contains, str_eq};

verus! {

/// The position after the chunk that starts at `pos`: the chunk's end, or
/// the start again when the chunk reaches the end of the buffer.
pub open spec fn looped_next_pos(pos: int, len: int) -> int {
    if chunk_end(pos, len) == len { 0 } else { chunk_end(pos, len) }
}

/// Reads a buffer in chunks of at most `CHUNK_SIZE` bytes, over and over.
#[derive(Clone)]
pub struct LoopingReader {
    buffer: Arc<Vec<u8>>,
    buffer_len: usize,
    current_pos: usize,
}

impl LoopingReader {
    /// The bytes of the buffer.
    pub closed spec fn data(&self) -> Seq<u8> {
        self.buffer@
    }

    /// The position of the next chunk.
    pub closed spec fn pos(&self) -> usize {
        self.current_pos
    }

    /// Well-formedness: the position lies inside the buffer (or is 0).
    pub closed spec fn wf(&self) -> bool {
        &&& self.buffer_len == self.buffer@.len()
        &&& (self.current_pos < self.buffer_len || self.current_pos == 0)
    }

    /// A reader at the start of `buffer`.
    pub fn new(buffer: Arc<Vec<u8>>) -> (r: Self)
        ensures
            r.wf(),
            r.data() == buffer@,
            r.pos() == 0,
    {
        let buffer_len = buffer.len();
        LoopingReader { buffer, buffer_len, current_pos: 0 }
    }

    /// The next chunk; after the last chunk the reader starts over. None
    /// only for an empty buffer.
    pub fn next_chunk(&mut self) -> (r: Option<Bytes>)
        requires
            old(self).wf(),
        ensures
            final(self).wf(),
            final(self).data() == old(self).data(),
            match r {
                None => old(self).data().len() == 0 && final(self).pos() == old(self).pos(),
                Some(b) => {
                    &&& old(self).data().len() > 0
                    &&& bytes_contents(b) == old(self).data().subrange(
                        old(self).pos() as int,
                        chunk_end(old(self).pos() as int, old(self).data().len() as int),
                    )
                    &&& final(self).pos() == looped_next_pos(old(self).pos() as int, old(self).data().len() as int)
                },
            },
    {
        if self.buffer_len == 0 {
            return None;
        }
        let start = self.current_pos;
        let end = if self.buffer_len - start > CHUNK_SIZE { start + CHUNK_SIZE } else { self.buffer_len };
        let chunk = vstd::slice::slice_subrange(self.buffer.as_slice(), start, end);
        let bytes_chunk = bytes_copy_from_slice(chunk);
        self.current_pos = if end == self.buffer_len {
            0
        } else {
            end
        };
        Some(bytes_chunk)
    }
}

/// The stream shown while a channel is frozen: the frame over and over.
pub struct FreezeFrameStream {
    reader: LoopingReader,
}

impl FreezeFrameStream {
    /// The frame reader; the status is not used.
    pub closed spec fn reader(&self) -> LoopingReader {
        self.reader
    }

    /// A stream of `buffer`, starting at its beginning.
    pub fn new(_status: u16, buffer: Arc<Vec<u8>>) -> (r: Self)
        ensures
            r.reader().wf(),
            r.reader().data() == buffer@,
            r.reader().pos() == 0,
    {
        FreezeFrameStream { reader: LoopingReader::new(buffer) }
    }

    /// The next chunk of the frame (see `LoopingReader::next_chunk`).
    pub fn next_chunk(&mut self) -> (r: Option<Bytes>)
        requires
            old(self).reader().wf(),
        ensures
            final(self).reader().wf(),
            final(self).reader().data() == old(self).reader().data(),
            match r {
                None => old(self).reader().data().len() == 0,
                Some(b) => {
                    &&& old(self).reader().data().len() > 0
                    &&& bytes_contents(b) == old(self).reader().data().subrange(
                        old(self).reader().pos() as int,
                        chunk_end(old(self).reader().pos() as int, old(self).reader().data().len() as int),
                    )
                    &&& final(self).reader().pos() == looped_next_pos(
                        old(self).reader().pos() as int,
                        old(self).reader().data().len() as int,
                    )
                },
            },
    {
        self.reader.next_chunk()
    }
}

/// A configured video (channel unavailable, connections exhausted) streamed
/// over and over.
#[derive(Clone)]
pub struct CustomVideoStream {
    buffer: LoopingReader,
}

impl CustomVideoStream {
    /// The video reader.
    pub closed spec fn reader(&self) -> LoopingReader {
        self.buffer
    }

    /// A stream of `buffer`, starting at its beginning.
    pub fn new(buffer: Arc<Vec<u8>>) -> (r: Self)
        ensures
            r.reader().wf(),
            r.reader().data() == buffer@,
            r.reader().pos() == 0,
    {
        CustomVideoStream { buffer: LoopingReader::new(buffer) }
    }

    /// The next chunk of the video (see `LoopingReader::next_chunk`).
    pub fn next_chunk(&mut self) -> (r: Option<Bytes>)
        requires
            old(self).reader().wf(),
        ensures
            final(self).reader().wf(),
            final(self).reader().data() == old(self).reader().data(),
            match r {
                None => old(self).reader().data().len() == 0,
                Some(b) => {
                    &&& old(self).reader().data().len() > 0
                    &&& bytes_contents(b) == old(self).reader().data().subrange(
                        old(self).reader().pos() as int,
                        chunk_end(old(self).reader().pos() as int, old(self).reader().data().len() as int),
                    )
                    &&& final(self).reader().pos() == looped_next_pos(
                        old(self).reader().pos() as int,
                        old(self).reader().data().len() as int,
                    )
                },
            },
    {
        self.buffer.next_chunk()
    }
}

/// A looping reader always has a next chunk for a non-empty buffer, and
/// from the start it hands out the whole buffer before it starts over: the
/// chunks up to the wrap are those of a one-time read.
pub proof fn lemma_loop_restarts_after_buffer(pos: int, len: int)
    requires
        0 <= pos < len,
    ensures
        looped_next_pos(pos, len) == 0 <==> chunk_end(pos, len) == len,
        looped_next_pos(pos, len) != 0 ==> pos < looped_next_pos(pos, len) < len,
        chunk_end(pos, len) - pos <= CHUNK_SIZE,
        chunk_end(pos, len) > pos,
{
}

/// Which configured video answers a request that cannot be served.
#[derive(Clone, Copy, Debug, PartialEq, Eq, Structural)]
pub enum CustomVideoStreamType {
    ChannelUnavailable,
    UserConnectionsExhausted,
    ProviderConnectionsExhausted,
}

/// A provider header that a custom video does not pass on: its type, its
/// length, and anything about ranges.
pub open spec fn is_replaced_header(key: Seq<char>) -> bool {
    key == "content-type"@ || key == "content-length"@ || contains_seq(key, "range"@)
}

/// The view of a header.
pub open spec fn header_view(h: (String, String)) -> (Seq<char>, Seq<char>) {
    (h.0@, h.1@)
}

/// The views of a list of headers.
pub open spec fn headers_view(hs: Seq<(String, String)>) -> Seq<(Seq<char>, Seq<char>)> {
    hs.map_values(|h: (String, String)| header_view(h))
}

/// Whether a header is passed on with a custom video.
pub open spec fn keeps_header(h: (Seq<char>, Seq<char>)) -> bool {
    !is_replaced_header(h.0)
}

/// The headers a custom video is sent with: the provider's headers it does
/// not replace, in their order, then its own content type.
pub open spec fn spec_custom_video_headers(hs: Seq<(Seq<char>, Seq<char>)>) -> Seq<(Seq<char>, Seq<char>)> {
    hs.filter(|h: (Seq<char>, Seq<char>)| keeps_header(h)).push(("content-type"@, "video/mp2t"@))
}

/// Builds the headers a custom video is sent with.
pub fn custom_video_headers(headers: &Vec<(String, String)>) -> (r: Vec<(String, String)>)
    ensures
        headers_view(r@) == spec_custom_video_headers(headers_view(headers@)),
{
    let ghost all = headers_view(headers@);
    let ghost keep = |h: (Seq<char>, Seq<char>)| keeps_header(h);
    let mut r: Vec<(String, String)> = Vec::new();
    let n = headers.len();
    let mut i: usize = 0;
    proof {
        assert(all.take(0) =~= Seq::<(Seq<char>, Seq<char>)>::empty());
        reveal(Seq::filter);
        assert(headers_view(r@) =~= all.take(0).filter(keep));
    }
    while i < n
        invariant
            n == headers@.len(),
            i <= n,
            all == headers_view(headers@),
            keep == (|h: (Seq<char>, Seq<char>)| keeps_header(h)),
            headers_view(r@) == all.take(i as int).filter(keep),
        decreases n - i,
    {
        let key = &headers[i].0;
        let value = &headers[i].1;
        let drop = str_eq(key.as_str(), "content-type") || str_eq(key.as_str(), "content-length")
            || str_contains(key.as_str(), "range");
        let ghost before = r@;
        proof {
            assert(all.take(i + 1).drop_last() =~= all.take(i as int));
            assert(all.take(i + 1).last() == header_view(headers@[i as int]));
            reveal(Seq::filter);
        }
        if !drop {
            r.push((key.clone(), value.clone()));
            proof {
                assert(headers_view(r@) =~= headers_view(before).push(header_view(headers@[i as int])));
            }
        }
        i = i + 1;
    }
    proof {
        assert(all.take(n as int) =~= all);
    }
    let ghost kept = r@;
    let mut ct = String::new();
    crate::text::push_str(&mut ct, "content-type");
    let mut mime = String::new();
    crate::text::push_str(&mut mime, "video/mp2t");
    r.push((ct, mime));
    proof {
        assert(headers_view(r@) =~= headers_view(kept).push(("content-type"@, "video/mp2t"@)));
    }
    r
}

} // verus!
