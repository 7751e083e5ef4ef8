//! Cutting a provider's byte stream into MPEG transport stream packets.

use bytes::Bytes;
use vstd::prelude::*;
use crate::chunked_buffer::{bytes_as_slice, bytes_contents, bytes_copy_from_slice};

verus! {

/// The size of an MPEG-TS packet.
pub const TS_PACKET_SIZE: usize = 188;

/// The sync byte every MPEG-TS packet starts with.
pub const TS_SYNC_BYTE: u8 = 0x47;

/// Whether a packet starts with the MPEG-TS sync byte.
pub fn is_valid_mpeg_ts_package(packet_data: &[u8]) -> (r: bool)
    requires
        packet_data@.len() > 0,
    ensures
        r == (packet_data@[0] == TS_SYNC_BYTE),
{
    packet_data[0] == TS_SYNC_BYTE
}

/// What the packetizer asks its caller to do next.
pub enum TsStep {
    /// Less than a packet is buffered: read more from the provider.
    NeedData,
    /// A valid packet, removed from the buffer.
    Packet(Bytes),
    /// An invalid packet (one that does not start with the sync byte) was
    /// dropped.
    Skipped,
}

/// The abstract value of a step.
pub enum TsStepView {
    NeedData,
    Packet(Seq<u8>),
    Skipped,
}

impl View for TsStep {
    type V = TsStepView;

    open spec fn view(&self) -> TsStepView {
        match self {
            TsStep::NeedData => TsStepView::NeedData,
            TsStep::Packet(b) => TsStepView::Packet(bytes_contents(*b)),
            TsStep::Skipped => TsStepView::Skipped,
        }
    }
}

/// The abstract state of the packetizer.
pub struct TsBufferView {
    pub buffer: Seq<u8>,
    pub found_valid_packet: bool,
}

/// One step on a buffer: with less than a packet, more data is needed; a
/// packet that starts with the sync byte is handed out; an invalid one is
/// dropped, before the first valid packet as after it, so that every step
/// that does not ask for data consumes a packet's worth of bytes.
pub open spec fn ts_step(v: TsBufferView) -> (TsBufferView, TsStepView) {
    if v.buffer.len() < TS_PACKET_SIZE {
        (v, TsStepView::NeedData)
    } else if v.buffer[0] == TS_SYNC_BYTE {
        (
            TsBufferView { buffer: v.buffer.skip(TS_PACKET_SIZE as int), found_valid_packet: true },
            TsStepView::Packet(v.buffer.take(TS_PACKET_SIZE as int)),
        )
    } else {
        (TsBufferView { buffer: v.buffer.skip(TS_PACKET_SIZE as int), ..v }, TsStepView::Skipped)
    }
}

/// Buffers a provider's bytes and hands them out packet by packet.
pub struct TsPacketizer {
    buffer: Vec<u8>,
    found_valid_packet: bool,
}

impl View for TsPacketizer {
    type V = TsBufferView;

    closed spec fn view(&self) -> TsBufferView {
        TsBufferView { buffer: self.buffer@, found_valid_packet: self.found_valid_packet }
    }
}

impl TsPacketizer {
    /// An empty packetizer that has seen no valid packet.
    pub fn new() -> (r: Self)
        ensures
            r@.buffer == Seq::<u8>::empty(),
            !r@.found_valid_packet,
    {
        TsPacketizer { buffer: Vec::new(), found_valid_packet: false }
    }

    /// Appends a chunk read from the provider.
    pub fn push_chunk(&mut self, chunk: &Bytes)
        ensures
            final(self)@ == (TsBufferView { buffer: old(self)@.buffer + bytes_contents(*chunk), ..old(self)@ }),
    {
        let data = bytes_as_slice(chunk);
        self.buffer.extend_from_slice(data);
        proof {
            assert(self@.buffer =~= old(self)@.buffer + bytes_contents(*chunk));
        }
    }

    /// One step (see `ts_step`).
    pub fn step(&mut self) -> (r: TsStep)
        ensures
            (final(self)@, r@) == ts_step(old(self)@),
    {
        if self.buffer.len() < TS_PACKET_SIZE {
            return TsStep::NeedData;
        }
        let len = self.buffer.len();
        let packet_data = vstd::slice::slice_subrange(self.buffer.as_slice(), 0, TS_PACKET_SIZE);
        if is_valid_mpeg_ts_package(packet_data) {
            self.found_valid_packet = true;
            let packet = bytes_copy_from_slice(packet_data);
            let rest = vstd::slice::slice_to_vec(vstd::slice::slice_subrange(self.buffer.as_slice(), TS_PACKET_SIZE, len));
            proof {
                assert(packet_data@ =~= old(self)@.buffer.take(TS_PACKET_SIZE as int));
                assert(rest@ =~= old(self)@.buffer.skip(TS_PACKET_SIZE as int));
            }
            self.buffer = rest;
            TsStep::Packet(packet)
        } else {
            let rest = vstd::slice::slice_to_vec(vstd::slice::slice_subrange(self.buffer.as_slice(), TS_PACKET_SIZE, len));
            proof {
                assert(rest@ =~= old(self)@.buffer.skip(TS_PACKET_SIZE as int));
            }
            self.buffer = rest;
            TsStep::Skipped
        }
    }
}

/// Every packet handed out is a whole packet that starts with the sync
/// byte; no byte is lost or invented: what is handed out or dropped,
/// followed by what stays buffered, is what was buffered; and every step
/// that does not ask for more data consumes exactly one packet's worth of
/// bytes, so a caller that steps until data is needed stops.
pub proof fn lemma_ts_step_conserves(v: TsBufferView)
    ensures
        ts_step(v).1 matches TsStepView::Packet(p) ==> {
            &&& p.len() == TS_PACKET_SIZE
            &&& p[0] == TS_SYNC_BYTE
            &&& p + ts_step(v).0.buffer == v.buffer
        },
        ts_step(v).1 is Skipped ==> v.buffer.take(TS_PACKET_SIZE as int) + ts_step(v).0.buffer == v.buffer,
        ts_step(v).1 is Skipped ==> v.buffer[0] != TS_SYNC_BYTE,
        ts_step(v).1 is NeedData <==> v.buffer.len() < TS_PACKET_SIZE,
        ts_step(v).1 is NeedData ==> ts_step(v).0 == v,
        !(ts_step(v).1 is NeedData) ==> ts_step(v).0.buffer.len() == v.buffer.len() - TS_PACKET_SIZE,
{
    if v.buffer.len() >= TS_PACKET_SIZE {
        assert(v.buffer.take(TS_PACKET_SIZE as int) + v.buffer.skip(TS_PACKET_SIZE as int) =~= v.buffer);
    }
}

} // verus!
