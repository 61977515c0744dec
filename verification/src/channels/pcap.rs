//! Messages to the thread that writes captured frames to a PCAP file.

use crate::models::timestamp::Timestamp;
use vstd::prelude::*;
use vstd::slice::slice_subrange;

verus! {

/// Largest Ethernet frame that is captured:
/// 1500 (MTU) + 36 bytes of room for headers and tags.
pub const MAX_PACKET_SIZE: usize = 1536;

/// A captured Ethernet frame in a fixed-size buffer.
pub struct CapturedPacket {
    pub buf: [u8; MAX_PACKET_SIZE],
    /// Frame length, at most `MAX_PACKET_SIZE`.
    pub len: usize,
    /// Wall-clock time of the capture.
    pub ts: Timestamp,
}

/// Messages from the capture cores to a PCAP writer thread.
pub enum Message {
    /// An RTP frame to be written.
    Packet(CapturedPacket),
    /// Flush all pending writes and exit.
    Shutdown,
}

/// How many bytes of a frame of `n` bytes are kept.
pub open spec fn kept_len(n: nat) -> nat {
    if n <= MAX_PACKET_SIZE {
        n
    } else {
        MAX_PACKET_SIZE as nat
    }
}

impl CapturedPacket {
    /// The kept length fits in the buffer.
    pub open spec fn wf(&self) -> bool {
        self.len <= MAX_PACKET_SIZE
    }

    /// The captured bytes.
    pub open spec fn bytes(&self) -> Seq<u8> {
        self.buf@.take(self.len as int)
    }

    /// Whether this is the capture of `data` at time `ts`: the frame cut to the
    /// buffer size, followed by zeros.
    pub open spec fn captures(&self, data: Seq<u8>, ts: Timestamp) -> bool {
        &&& self.len == kept_len(data.len())
        &&& self.bytes() == data.take(self.len as int)
        &&& forall|i: int| self.len <= i < MAX_PACKET_SIZE ==> #[trigger] self.buf@[i] == 0
        &&& self.ts == ts
    }

    /// Copy a frame into a fixed-size buffer; what exceeds it is cut off.
    pub fn capture(data: &[u8], ts: Timestamp) -> (r: CapturedPacket)
        ensures
            r.wf(),
            r.captures(data@, ts),
    {
        let len = if data.len() <= MAX_PACKET_SIZE {
            data.len()
        } else {
            MAX_PACKET_SIZE
        };
        let mut buf = [0u8; MAX_PACKET_SIZE];
        let mut i: usize = 0;
        while i < MAX_PACKET_SIZE
            invariant
                i <= MAX_PACKET_SIZE,
                len <= data@.len(),
                forall|j: int|
                    0 <= j < i ==> #[trigger] buf@[j] == if j < len {
                        data@[j]
                    } else {
                        0
                    },
            decreases MAX_PACKET_SIZE - i,
        {
            buf[i] = if i < len {
                data[i]
            } else {
                0
            };
            i += 1;
        }
        let r = CapturedPacket { buf, len, ts };
        assert(r.bytes() =~= data@.take(r.len as int));
        r
    }

    /// The captured bytes, to be written to the PCAP file.
    pub fn frame(&self) -> (r: &[u8])
        requires
            self.wf(),
        ensures
            r@ == self.bytes(),
    {
        slice_subrange(self.buf.as_slice(), 0, self.len)
    }
}

/// A frame of up to 1536 bytes is captured whole, a longer one up to that length.
/// The rest of the buffer is zero, and the time is the given one.
pub proof fn frames_are_kept_up_to_the_buffer(
    packet: CapturedPacket,
    data: Seq<u8>,
    ts: Timestamp,
)
    requires
        packet.captures(data, ts),
    ensures
        data.len() <= 1536 ==> packet.bytes() == data,
        data.len() > 1536 ==> packet.len == 1536,
        packet.bytes().len() == packet.len,
        forall|i: int|
            0 <= i < 1536 ==> #[trigger] packet.buf@[i] == if i < data.len() {
                data[i]
            } else {
                0
            },
        packet.ts == ts,
{
    assert forall|i: int| 0 <= i < 1536 implies #[trigger] packet.buf@[i] == if i < data.len() {
        data[i]
    } else {
        0
    } by {
        if i < packet.len {
            assert(packet.bytes()[i] == data.take(packet.len as int)[i]);
        }
    }
    if data.len() <= 1536 {
        assert(data.take(packet.len as int) =~= data);
    }
}

} // verus!
