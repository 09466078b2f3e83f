//! How network messages are framed on a byte stream: each message is its
//! length as four big-endian bytes, followed by the message's bytes.

use vstd::prelude::*;

verus! {

/// The four big-endian bytes of `n`.
pub open spec fn be_bytes(n: int) -> Seq<u8> {
    seq![(n / 0x100_0000 % 0x100) as u8, (n / 0x1_0000 % 0x100) as u8, (n / 0x100 % 0x100) as u8, (n % 0x100) as u8]
}

/// The number that four big-endian bytes stand for.
pub open spec fn be_value(b: Seq<u8>) -> int {
    b[0] * 0x100_0000 + b[1] * 0x1_0000 + b[2] * 0x100 + b[3]
}

/// A message framed for sending: its length, then its bytes.
pub open spec fn framed(payload: Seq<u8>) -> Seq<u8> {
    be_bytes(payload.len() as int) + payload
}

/// The complete messages at the start of a stream, in order, and the bytes
/// that remain (an incomplete frame, or nothing).
pub open spec fn frames_of(stream: Seq<u8>) -> (Seq<Seq<u8>>, Seq<u8>)
    decreases stream.len(),
{
    if stream.len() < 4 {
        (Seq::empty(), stream)
    } else {
        let size = be_value(stream.subrange(0, 4));
        if stream.len() - 4 < size {
            (Seq::empty(), stream)
        } else {
            let rest = frames_of(stream.subrange(4 + size, stream.len() as int));
            (seq![stream.subrange(4, 4 + size)] + rest.0, rest.1)
        }
    }
}

/// All messages framed one after the other.
pub open spec fn framed_all(payloads: Seq<Seq<u8>>) -> Seq<u8>
    decreases payloads.len(),
{
    if payloads.len() == 0 {
        Seq::empty()
    } else {
        framed(payloads[0]) + framed_all(payloads.drop_first())
    }
}

proof fn lemma_be_round_trip(n: int)
    requires
        0 <= n <= u32::MAX,
    ensures
        be_value(be_bytes(n)) == n,
        be_bytes(n).len() == 4,
{
    assert(be_value(be_bytes(n)) == n) by (nonlinear_arith)
        requires
            0 <= n <= u32::MAX,
    {
        assert(0 <= n / 0x100_0000 < 0x100);
        assert(n / 0x100_0000 % 0x100 == n / 0x100_0000);
    }
}

/// The bytes of `n` in big-endian order, as `u32::to_be_bytes` gives them.
pub fn length_prefix(n: u32) -> (r: [u8; 4])
    ensures
        r@ == be_bytes(n as int),
{
    let r = [(n / 0x100_0000) as u8, (n / 0x1_0000 % 0x100) as u8, (n / 0x100 % 0x100) as u8, (n % 0x100) as u8];
    proof {
        assert(n / 0x100_0000 < 0x100);
        assert(r@ =~= be_bytes(n as int));
    }
    r
}

/// The number that four big-endian bytes stand for, as `u32::from_be_bytes`
/// gives it.
pub fn read_length(b0: u8, b1: u8, b2: u8, b3: u8) -> (r: u32)
    ensures
        r == be_value(seq![b0, b1, b2, b3]),
{
    b0 as u32 * 0x100_0000 + b1 as u32 * 0x1_0000 + b2 as u32 * 0x100 + b3 as u32
}

/// Frames a message for sending: its length as four big-endian bytes, then
/// the message.
pub fn frame_message(payload: &Vec<u8>) -> (r: Vec<u8>)
    requires
        payload@.len() <= u32::MAX,
    ensures
        r@ == framed(payload@),
{
    let prefix = length_prefix(payload.len() as u32);
    let mut r: Vec<u8> = Vec::new();
    r.push(prefix[0]);
    r.push(prefix[1]);
    r.push(prefix[2]);
    r.push(prefix[3]);
    let mut i: usize = 0;
    while i < payload.len()
        invariant
            i <= payload@.len(),
            r@ == be_bytes(payload@.len() as int) + payload@.subrange(0, i as int),
        decreases payload@.len() - i,
    {
        r.push(payload[i]);
        proof {
            assert(payload@.subrange(0, i + 1) == payload@.subrange(0, i as int).push(payload@[i as int]));
        }
        i = i + 1;
    }
    proof {
        assert(payload@.subrange(0, payload@.len() as int) == payload@);
    }
    r
}

fn copy_range(v: &Vec<u8>, start: usize, end: usize) -> (r: Vec<u8>)
    requires
        start <= end <= v@.len(),
    ensures
        r@ == v@.subrange(start as int, end as int),
{
    let mut r: Vec<u8> = Vec::new();
    let mut i = start;
    while i < end
        invariant
            start <= i <= end,
            end <= v@.len(),
            r@ == v@.subrange(start as int, i as int),
        decreases end - i,
    {
        r.push(v[i]);
        proof {
            assert(v@.subrange(start as int, i + 1) == v@.subrange(start as int, i as int).push(v@[i as int]));
        }
        i = i + 1;
    }
    r
}

/// Takes the complete messages from the start of the received bytes, in
/// order, and leaves in `buffer` what remains of an incomplete one (see
/// `frames_of`).
pub fn take_frames(buffer: &mut Vec<u8>) -> (messages: Vec<Vec<u8>>)
    ensures
        messages@.map_values(|m: Vec<u8>| m@) == frames_of(old(buffer)@).0,
        final(buffer)@ == frames_of(old(buffer)@).1,
{
    let ghost stream = buffer@;
    let mut messages: Vec<Vec<u8>> = Vec::new();
    let len = buffer.len();
    let mut pos: usize = 0;
    proof {
        assert(stream.subrange(0, len as int) =~= stream);
        assert(messages@.map_values(|m: Vec<u8>| m@) =~= Seq::<Seq<u8>>::empty());
    }
    loop
        invariant
            buffer@ == stream,
            len == stream.len(),
            pos <= len,
            messages@.map_values(|m: Vec<u8>| m@) + frames_of(stream.subrange(pos as int, len as int)).0 == frames_of(
                stream,
            ).0,
            frames_of(stream.subrange(pos as int, len as int)).1 == frames_of(stream).1,
        ensures
            frames_of(stream.subrange(pos as int, len as int)).0 =~= Seq::<Seq<u8>>::empty(),
            frames_of(stream.subrange(pos as int, len as int)).1 == stream.subrange(pos as int, len as int),
        decreases len - pos,
    {
        let ghost rest = stream.subrange(pos as int, len as int);
        if len - pos < 4 {
            break;
        }
        let size = read_length(buffer[pos], buffer[pos + 1], buffer[pos + 2], buffer[pos + 3]) as usize;
        proof {
            assert(rest.subrange(0, 4) =~= seq![buffer@[pos as int], buffer@[pos + 1], buffer@[pos + 2], buffer@[pos + 3]]);
        }
        if len - pos - 4 < size {
            break;
        }
        let message = copy_range(buffer, pos + 4, pos + 4 + size);
        let ghost before = messages@.map_values(|m: Vec<u8>| m@);
        messages.push(message);
        proof {
            assert(rest.subrange(4, 4 + size as int) =~= stream.subrange(pos + 4, pos + 4 + size));
            assert(rest.subrange(4 + size as int, rest.len() as int) =~= stream.subrange(pos + 4 + size, len as int));
            assert(messages@.map_values(|m: Vec<u8>| m@) =~= before.push(message@));
            let tail = frames_of(stream.subrange(pos + 4 + size, len as int));
            assert(frames_of(rest).0 == seq![rest.subrange(4, 4 + size as int)] + tail.0);
            assert(before.push(message@) + tail.0 =~= before + (seq![message@] + tail.0));
        }
        pos = pos + 4 + size;
    }
    let remaining = copy_range(buffer, pos, len);
    *buffer = remaining;
    proof {
        let v = messages@.map_values(|m: Vec<u8>| m@);
        assert(v + Seq::<Seq<u8>>::empty() =~= v);
    }
    messages
}

/// Reading the frames of messages framed one after the other gives back
/// the messages, and nothing remains.
pub proof fn law_frames_round_trip(payloads: Seq<Seq<u8>>)
    requires
        forall|i: int| 0 <= i < payloads.len() ==> (#[trigger] payloads[i]).len() <= u32::MAX,
    ensures
        frames_of(framed_all(payloads)) == (payloads, Seq::<u8>::empty()),
    decreases payloads.len(),
{
    if payloads.len() == 0 {
        assert(framed_all(payloads) =~= Seq::<u8>::empty());
    } else {
        let p = payloads[0];
        let rest = payloads.drop_first();
        assert forall|i: int| 0 <= i < rest.len() implies (#[trigger] rest[i]).len() <= u32::MAX by {
            assert(rest[i] == payloads[i + 1]);
        }
        law_frames_round_trip(rest);
        lemma_be_round_trip(p.len() as int);
        let s = framed_all(payloads);
        let prefix = be_bytes(p.len() as int);
        assert(s.subrange(0, 4) =~= prefix);
        assert(s.subrange(4, 4 + p.len() as int) =~= p);
        assert(s.subrange(4 + p.len() as int, s.len() as int) =~= framed_all(rest));
        assert(seq![p] + rest =~= payloads);
    }
}

} // verus!
