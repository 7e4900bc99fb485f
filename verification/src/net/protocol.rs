//! Messages as bytes on a stream: the length in four bytes, most significant first, then the
//! message.

use vstd::prelude::*;

verus! {

/// The name of the protocol.
pub const MEERKAT_PROTOCOL: &'static str = "/meerkat/1.0.0";

/// The four bytes that write a length. What does not fit is dropped from the front.
pub open spec fn length_bytes(n: nat) -> Seq<u8> {
    seq![
        ((n / 0x100_0000) % 0x100) as u8,
        ((n / 0x1_0000) % 0x100) as u8,
        ((n / 0x100) % 0x100) as u8,
        (n % 0x100) as u8,
    ]
}

/// The length that four bytes write.
pub open spec fn length_of(b: Seq<u8>) -> nat {
    (b[0] as nat) * 0x100_0000 + (b[1] as nat) * 0x1_0000 + (b[2] as nat) * 0x100 + (b[3] as nat)
}

/// A message with its length in front.
pub open spec fn framed(data: Seq<u8>) -> Seq<u8> {
    length_bytes(data.len()) + data
}

/// The first message of a stream, and what comes after it; nothing where the stream ends within
/// the message.
pub open spec fn unframed(stream: Seq<u8>) -> Option<(Seq<u8>, Seq<u8>)> {
    if stream.len() < 4 || stream.len() - 4 < length_of(stream) {
        None
    } else {
        let end = 4 + length_of(stream) as int;
        Some((stream.subrange(4, end), stream.skip(end)))
    }
}

/// Writing a length and reading it gives it back, where it fits in four bytes.
proof fn lemma_length(n: nat)
    requires
        n <= u32::MAX,
    ensures
        length_of(length_bytes(n)) == n,
{
}

/// What was sent is received, with the rest of the stream left: for every message whose length
/// fits in four bytes.
pub proof fn unframing_undoes_framing(data: Seq<u8>, rest: Seq<u8>)
    requires
        data.len() <= u32::MAX,
    ensures
        unframed(framed(data) + rest) == Some((data, rest)),
{
    lemma_length(data.len());
    let stream = framed(data) + rest;
    assert(stream[0] == length_bytes(data.len())[0]);
    assert(stream[1] == length_bytes(data.len())[1]);
    assert(stream[2] == length_bytes(data.len())[2]);
    assert(stream[3] == length_bytes(data.len())[3]);
    assert(length_of(stream) == data.len());
    assert(stream.subrange(4, 4 + data.len() as int) =~= data);
    assert(stream.skip(4 + data.len() as int) =~= rest);
}

/// A message with its length in front.
pub fn frame(data: &Vec<u8>) -> (res: Vec<u8>)
    ensures
        res@ == framed(data@),
{
    let n: usize = data.len();
    let mut res: Vec<u8> = Vec::new();
    res.push(((n / 0x100_0000) % 0x100) as u8);
    res.push(((n / 0x1_0000) % 0x100) as u8);
    res.push(((n / 0x100) % 0x100) as u8);
    res.push((n % 0x100) as u8);
    let mut i: usize = 0;
    assert(res@ =~= length_bytes(n as nat) + data@.take(0));
    while i < n
        invariant
            i <= n == data@.len(),
            res@ == length_bytes(n as nat) + data@.take(i as int),
        decreases n - i,
    {
        res.push(data[i]);
        i += 1;
        assert(res@ =~= length_bytes(n as nat) + data@.take(i as int));
    }
    assert(data@.take(i as int) =~= data@);
    res
}

/// The length of the message that follows four bytes.
pub fn payload_length(header: [u8; 4]) -> (res: u32)
    ensures
        res == length_of(header@),
{
    (header[0] as u32) * 0x100_0000 + (header[1] as u32) * 0x1_0000 + (header[2] as u32) * 0x100
        + (header[3] as u32)
}

/// The first message of a stream; nothing where the stream ends within the message.
pub fn unframe(stream: &Vec<u8>) -> (res: Option<Vec<u8>>)
    ensures
        match res {
            Some(data) => unframed(stream@) is Some && data@ == (unframed(stream@)->0).0,
            None => unframed(stream@) is None,
        },
{
    if stream.len() < 4 {
        return None;
    }
    let header: [u8; 4] = [stream[0], stream[1], stream[2], stream[3]];
    let n: u32 = payload_length(header);
    if ((stream.len() - 4) as u64) < n as u64 {
        return None;
    }
    let end: usize = 4 + n as usize;
    let mut res: Vec<u8> = Vec::new();
    let mut i: usize = 4;
    assert(res@ =~= stream@.subrange(4, 4));
    while i < end
        invariant
            4 <= i <= end <= stream@.len(),
            res@ == stream@.subrange(4, i as int),
        decreases end - i,
    {
        res.push(stream[i]);
        i += 1;
        assert(res@ =~= stream@.subrange(4, i as int));
    }
    Some(res)
}

} // verus!
