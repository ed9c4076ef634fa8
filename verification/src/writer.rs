//! The write side: the byte-level primitives that lay frames out into an
//! outbound buffer. The frame and control types build on these through
//! their `encode` methods.

use vstd::prelude::*;
use crate::control::push_bytes;
use crate::control::put_u32;
use crate::wire::enc_u32;
use crate::FrameHeader;
use crate::FstrmLength;

verus! {

/// Writes one 32-bit big-endian value.
pub fn write_frame_value(out: &mut Vec<u8>, value: u32)
    ensures
        final(out)@ == old(out)@ + enc_u32(value),
{
    put_u32(out, value);
}

/// Writes a length word.
pub fn write_frame_len(out: &mut Vec<u8>, len: FstrmLength)
    ensures
        final(out)@ == old(out)@ + enc_u32(len),
{
    write_frame_value(out, len);
}

/// Writes a frame header: the zero escape word for a control frame, the
/// payload length for a data frame.
pub fn write_frame_header(out: &mut Vec<u8>, header: FrameHeader)
    ensures
        final(out)@ == old(out)@ + enc_u32(
            match header {
                FrameHeader::ControlHeader => 0,
                FrameHeader::Length(length) => length,
            },
        ),
{
    match header {
        FrameHeader::ControlHeader => write_frame_value(out, 0),
        FrameHeader::Length(length) => write_frame_len(out, length),
    }
}

/// Writes payload bytes as they are.
pub fn write_frame_data(out: &mut Vec<u8>, data: &Vec<u8>)
    ensures
        final(out)@ == old(out)@ + data@,
{
    push_bytes(out, data);
}

} // verus!
