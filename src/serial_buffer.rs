//! The serial accumulation buffer: what the next bytes hold, and how much
//! to drop after a corrupt frame.

use vstd::prelude::*;
use vstd::slice::*;

use crate::improv_laws::lemma_decoded_length;
use crate::improv_wifi::{decode_frame, FramePayload, ImprovWifiPacket, ParseError, TERMINATOR};

verus! {

/// The checksum byte of a `RequestDeviceInformation` frame. A peer that
/// drops the first bytes of a request leaves its checksum just before the
/// terminator.
pub const DEVICE_INFORMATION_REQUEST_CHECKSUM: u8 = 0xE6;

/// Position just after the first terminator at or after `i`, or the length
/// of `b` when there is none.
pub open spec fn terminator_end_from(b: Seq<u8>, i: int) -> int
    decreases b.len() - i,
{
    if i < 0 || i >= b.len() {
        b.len() as int
    } else if b[i] == TERMINATOR {
        i + 1
    } else {
        terminator_end_from(b, i + 1)
    }
}

/// How many bytes to drop after a decode error: up to and including the
/// first terminator, or everything when there is none.
pub open spec fn resync_len(b: Seq<u8>) -> int {
    terminator_end_from(b, 0)
}

/// Whether the byte before the terminator that is dropped is the checksum
/// of a `RequestDeviceInformation` request.
pub open spec fn lost_device_information_request(b: Seq<u8>) -> bool {
    let n = resync_len(b);
    n >= 2 && b[n - 1] == TERMINATOR && b[n - 2] == DEVICE_INFORMATION_REQUEST_CHECKSUM
}

/// What the start of the buffer holds.
pub enum BufferStep {
    /// Nothing can be decided yet: keep every byte and read more.
    NeedMore,
    /// A frame, and the number of bytes it takes.
    Frame(ImprovWifiPacket, usize),
    /// Corrupt bytes: drop `drop` of them; `lost_request` tells whether the
    /// dropped span looks like a `RequestDeviceInformation` that lost its
    /// start.
    Corrupt { drop: usize, lost_request: bool },
}

/// What the start of `b` holds, as mathematical values.
pub enum BufferStepModel {
    NeedMore,
    Frame(FramePayload, int),
    Corrupt(int, bool),
}

impl View for BufferStep {
    type V = BufferStepModel;

    open spec fn view(&self) -> BufferStepModel {
        match self {
            BufferStep::NeedMore => BufferStepModel::NeedMore,
            BufferStep::Frame(p, n) => BufferStepModel::Frame(p@, *n as int),
            BufferStep::Corrupt { drop, lost_request } => BufferStepModel::Corrupt(
                *drop as int,
                *lost_request,
            ),
        }
    }
}

/// What the start of `b` holds: an empty buffer or an `Incomplete` decode
/// needs more bytes; a decoded frame is taken whole; any other decode error
/// drops bytes up to the next terminator.
#[verifier::opaque]
pub open spec fn buffer_step(b: Seq<u8>) -> BufferStepModel {
    if b.len() == 0 {
        BufferStepModel::NeedMore
    } else {
        match decode_frame(b) {
            Ok((p, n)) => BufferStepModel::Frame(p, n),
            Err(ParseError::Incomplete) => BufferStepModel::NeedMore,
            Err(_) => BufferStepModel::Corrupt(resync_len(b), lost_device_information_request(b)),
        }
    }
}

proof fn lemma_terminator_end_range(b: Seq<u8>, i: int)
    requires
        0 <= i <= b.len(),
    ensures
        i < terminator_end_from(b, i) <= b.len() || (i == b.len() && terminator_end_from(b, i)
            == b.len()),
    decreases b.len() - i,
{
    if i < b.len() && b[i] != TERMINATOR {
        lemma_terminator_end_range(b, i + 1);
    }
}

/// Bytes to drop after a decode error, and whether they end like a
/// `RequestDeviceInformation` request whose start was lost.
pub fn resync_length(buffer: &[u8]) -> (r: (usize, bool))
    ensures
        r.0 == resync_len(buffer@),
        r.1 == lost_device_information_request(buffer@),
        buffer@.len() > 0 ==> 0 < r.0 <= buffer@.len(),
{
    let mut i: usize = 0;
    while i < buffer.len() && buffer[i] != TERMINATOR
        invariant
            i <= buffer@.len(),
            terminator_end_from(buffer@, 0) == terminator_end_from(buffer@, i as int),
        decreases buffer@.len() - i,
    {
        i = i + 1;
    }
    proof {
        lemma_terminator_end_range(buffer@, 0);
    }
    let n = if i < buffer.len() {
        i + 1
    } else {
        buffer.len()
    };
    let lost = n >= 2 && buffer[n - 1] == TERMINATOR && buffer[n - 2]
        == DEVICE_INFORMATION_REQUEST_CHECKSUM;
    (n, lost)
}

/// Looks at the start of the buffer: a frame, more bytes needed, or corrupt
/// bytes to drop.
pub fn next_buffer_step(buffer: &[u8]) -> (r: BufferStep)
    ensures
        r@ == buffer_step(buffer@),
        r matches BufferStep::Frame(_, n) ==> 0 < n <= buffer@.len(),
        r matches BufferStep::Corrupt { drop, .. } ==> 0 < drop <= buffer@.len(),
{
    reveal(buffer_step);
    if buffer.len() == 0 {
        return BufferStep::NeedMore;
    }
    proof {
        lemma_decoded_length(buffer@);
    }
    match ImprovWifiPacket::from_bytes((buffer, 0)) {
        Ok((rest, packet)) => {
            let n = buffer.len() - rest.0.len();
            BufferStep::Frame(packet, n)
        },
        Err(ParseError::Incomplete) => BufferStep::NeedMore,
        Err(_) => {
            let (drop, lost_request) = resync_length(buffer);
            BufferStep::Corrupt { drop, lost_request }
        },
    }
}

/// The bytes of `buffer` after its first `n`.
pub fn drop_front(buffer: &Vec<u8>, n: usize) -> (r: Vec<u8>)
    requires
        n <= buffer@.len(),
    ensures
        r@ == buffer@.skip(n as int),
{
    let r = slice_to_vec(slice_subrange(buffer.as_slice(), n, buffer.len()));
    assert(r@ =~= buffer@.skip(n as int));
    r
}

} // verus!
