//! Length-prefixed frames between the agent and the approval gate: four bytes
//! of length, most significant first, then the body.

use crate::text;
use vstd::prelude::*;
use vstd::slice::slice_subrange;

verus! {

/// What a reader finds at the front of the bytes that have arrived.
#[derive(Debug)]
pub enum FrameRead {
    /// The frame is not complete yet.
    Short,
    /// The length is out of bounds.
    Invalid(String),
    /// A whole frame: its body, and how many bytes it took.
    Body(Vec<u8>, usize),
}

/// What a reader finds, with its text spelled out.
#[verifier::ext_equal]
pub enum FrameReadView {
    Short,
    Invalid(Seq<char>),
    Body(Seq<u8>, nat),
}

impl View for FrameRead {
    type V = FrameReadView;

    open spec fn view(&self) -> FrameReadView {
        match self {
            FrameRead::Short => FrameReadView::Short,
            FrameRead::Invalid(e) => FrameReadView::Invalid(e@),
            FrameRead::Body(b, n) => FrameReadView::Body(b@, *n as nat),
        }
    }
}

/// A length as four bytes, most significant first.
pub open spec fn length_bytes(n: int) -> Seq<u8> {
    seq![
        (n / 16777216) as u8,
        (n / 65536 % 256) as u8,
        (n / 256 % 256) as u8,
        (n % 256) as u8,
    ]
}

/// The length that four bytes spell.
pub open spec fn length_value(b: Seq<u8>) -> int {
    b[0] * 16777216 + b[1] * 65536 + b[2] * 256 + b[3]
}

/// Whether a body length is within bounds.
pub open spec fn length_ok(n: int, max: u32) -> bool {
    0 < n <= max
}

/// The frame for a body.
pub open spec fn framed(body: Seq<u8>, max: u32) -> Result<Seq<u8>, Seq<char>> {
    if length_ok(body.len() as int, max) {
        Ok(length_bytes(body.len() as int) + body)
    } else {
        Err("invalid trusted frame length"@)
    }
}

/// What a reader makes of the bytes that have arrived.
pub open spec fn frame_read(arrived: Seq<u8>, max: u32) -> FrameReadView {
    if arrived.len() < 4 {
        FrameReadView::Short
    } else if !length_ok(length_value(arrived), max) {
        FrameReadView::Invalid("invalid trusted frame length"@)
    } else if arrived.len() < 4 + length_value(arrived) {
        FrameReadView::Short
    } else {
        FrameReadView::Body(
            arrived.subrange(4, 4 + length_value(arrived)),
            (4 + length_value(arrived)) as nat,
        )
    }
}

pub open spec fn frame_outcome(r: Result<Vec<u8>, String>) -> Result<Seq<u8>, Seq<char>> {
    match r {
        Ok(v) => Ok(v@),
        Err(e) => Err(e@),
    }
}

/// Checks the length that a frame announces.
pub fn frame_length(header: &[u8], max: u32) -> (r: Result<u32, String>)
    requires
        header@.len() >= 4,
    ensures
        text::outcome(r) == (if length_ok(length_value(header@), max) {
            Ok(length_value(header@) as u32)
        } else {
            Err("invalid trusted frame length"@)
        }),
{
    let length: u32 = header[0] as u32 * 16777216 + header[1] as u32 * 65536 + header[2] as u32
        * 256 + header[3] as u32;
    if length == 0 || length > max {
        Err(text::owned("invalid trusted frame length"))
    } else {
        Ok(length)
    }
}

/// Reads one frame from the bytes that have arrived.
pub fn read_frame(arrived: &[u8], max: u32) -> (r: FrameRead)
    ensures
        r@ == frame_read(arrived@, max),
{
    if arrived.len() < 4 {
        return FrameRead::Short;
    }
    match frame_length(arrived, max) {
        Err(e) => FrameRead::Invalid(e),
        Ok(length) => {
            let room: usize = arrived.len() - 4;
            if room < length as usize {
                FrameRead::Short
            } else {
                let end: usize = 4 + length as usize;
                FrameRead::Body(text::copy_bytes(slice_subrange(arrived, 4, end)), end)
            }
        },
    }
}

/// The frame for a body, within bounds.
pub fn write_frame(body: &[u8], max: u32) -> (r: Result<Vec<u8>, String>)
    ensures
        frame_outcome(r) == framed(body@, max),
{
    if body.len() == 0 || body.len() > max as usize {
        return Err(text::owned("invalid trusted frame length"));
    }
    let n: u32 = body.len() as u32;
    let mut frame: Vec<u8> = Vec::new();
    frame.push((n / 16777216) as u8);
    frame.push((n / 65536 % 256) as u8);
    frame.push((n / 256 % 256) as u8);
    frame.push((n % 256) as u8);
    assert(frame@ =~= length_bytes(n as int));
    let mut copy = text::copy_bytes(body);
    frame.append(&mut copy);
    Ok(frame)
}

// ---------- laws ----------

/// Reading gives back what writing framed, and leaves what follows alone.
pub proof fn law_frame_round_trip(body: Seq<u8>, rest: Seq<u8>, max: u32)
    requires
        framed(body, max) is Ok,
    ensures
        frame_read(framed(body, max)->Ok_0 + rest, max) == FrameReadView::Body(
            body,
            framed(body, max)->Ok_0.len(),
        ),
{
    let n = body.len() as int;
    let sent = framed(body, max)->Ok_0 + rest;
    assert(n <= u32::MAX);
    assert(length_value(length_bytes(n)) == n);
    assert(sent[0] == length_bytes(n)[0] && sent[1] == length_bytes(n)[1]);
    assert(sent[2] == length_bytes(n)[2] && sent[3] == length_bytes(n)[3]);
    assert(sent.subrange(4, 4 + n) =~= body);
}

/// No reader takes more than the bound, whatever arrives.
pub proof fn law_read_frame_is_bounded(arrived: Seq<u8>, max: u32)
    ensures
        frame_read(arrived, max) matches FrameReadView::Body(body, used) ==> 0 < body.len() <= max
            && used == body.len() + 4 && used <= arrived.len(),
{
}

/// A frame is written for every body within the bound: four bytes that spell
/// its length, the most significant first, then the body.
pub proof fn law_frames_carry_their_length(body: &[u8], max: u32, r: Result<Vec<u8>, String>)
    requires
        call_ensures(write_frame, (body, max), r),
    ensures
        r is Ok <==> 0 < body@.len() <= max,
        r matches Ok(f) ==> f@.len() == body@.len() + 4 && f@.subrange(4, f@.len() as int) == body@
            && f@[0] * 0x1_00_00_00 + f@[1] * 0x1_00_00 + f@[2] * 0x1_00 + f@[3] == body@.len(),
        r matches Err(e) ==> e@ == "invalid trusted frame length"@,
{
    if let Ok(f) = r {
        assert(f@.subrange(4, f@.len() as int) =~= body@);
        let n = body@.len() as int;
        assert(f@[0] == length_bytes(n)[0] && f@[1] == length_bytes(n)[1] && f@[2] == length_bytes(
            n,
        )[2] && f@[3] == length_bytes(n)[3]);
    }
}

/// What was written is read, with what follows left alone.
pub proof fn law_written_frames_are_read(
    body: &[u8],
    max: u32,
    frame: Result<Vec<u8>, String>,
    arrived: &[u8],
    rest: Seq<u8>,
    r: FrameRead,
)
    requires
        call_ensures(write_frame, (body, max), frame),
        frame is Ok,
        arrived@ == frame->Ok_0@ + rest,
        call_ensures(read_frame, (arrived, max), r),
    ensures
        r matches FrameRead::Body(read, used) && read@ == body@ && used == body@.len() + 4,
{
    law_frame_round_trip(body@, rest, max);
}

/// A frame that is not all there is waited for; one of a wrong length is
/// refused as soon as the length is there.
pub proof fn law_short_frames_are_waited_for(arrived: &[u8], max: u32, r: FrameRead)
    requires
        call_ensures(read_frame, (arrived, max), r),
    ensures
        arrived@.len() < 4 ==> r is Short,
        arrived@.len() >= 4 ==> ({
            let n = arrived@[0] * 0x1_00_00_00 + arrived@[1] * 0x1_00_00 + arrived@[2] * 0x1_00
                + arrived@[3];
            &&& r is Invalid <==> n == 0 || n > max
            &&& r is Short <==> 0 < n <= max && arrived@.len() < 4 + n
            &&& r is Body <==> 0 < n <= max && arrived@.len() >= 4 + n
        }),
{
}

}
