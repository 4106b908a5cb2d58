use vstd::prelude::*;

verus! {

/// The largest message body accepted on the socket: 10 MiB.
pub const MAX_MESSAGE_LEN: usize = 10 * 1024 * 1024;

/// Why a frame was refused.
#[derive(Debug, Clone, Copy, PartialEq, Eq, Structural)]
pub enum FrameError {
    /// The announced or given body is longer than `MAX_MESSAGE_LEN`.
    TooLarge,
}

/// The value of a 4-byte big-endian length prefix.
pub open spec fn be_value(h: Seq<u8>) -> nat {
    (h[0] as nat) * 16777216 + (h[1] as nat) * 65536 + (h[2] as nat) * 256 + (h[3] as nat)
}

/// The 4-byte big-endian encoding of `n`, which must be below 2^32.
pub open spec fn be_bytes(n: nat) -> Seq<u8> {
    seq![
        (n / 16777216 % 256) as u8,
        (n / 65536 % 256) as u8,
        (n / 256 % 256) as u8,
        (n % 256) as u8,
    ]
}

/// The body length a frame header announces, when it is within
/// `MAX_MESSAGE_LEN`; a longer one is refused.
pub fn decode_header(h: &[u8; 4]) -> (r: Result<usize, FrameError>)
    ensures
        be_value(h@) <= MAX_MESSAGE_LEN ==> r == Ok::<usize, FrameError>(be_value(h@) as usize),
        be_value(h@) > MAX_MESSAGE_LEN ==> r == Err::<usize, FrameError>(FrameError::TooLarge),
{
    let v: u64 = (h[0] as u64) * 16777216 + (h[1] as u64) * 65536 + (h[2] as u64) * 256 + (
    h[3] as u64);
    if v > MAX_MESSAGE_LEN as u64 {
        Err(FrameError::TooLarge)
    } else {
        Ok(v as usize)
    }
}

/// A frame: the body's length as 4 big-endian bytes, then the body. A body
/// longer than `MAX_MESSAGE_LEN` is refused.
pub fn encode_frame(body: &Vec<u8>) -> (r: Result<Vec<u8>, FrameError>)
    ensures
        body@.len() <= MAX_MESSAGE_LEN ==> (r matches Ok(f) && f@ == be_bytes(body@.len()) + body@),
        body@.len() > MAX_MESSAGE_LEN ==> r == Err::<Vec<u8>, FrameError>(FrameError::TooLarge),
{
    let n = body.len();
    if n > MAX_MESSAGE_LEN {
        return Err(FrameError::TooLarge);
    }
    let mut out: Vec<u8> = Vec::new();
    out.push((n / 16777216 % 256) as u8);
    out.push((n / 65536 % 256) as u8);
    out.push((n / 256 % 256) as u8);
    out.push((n % 256) as u8);
    let mut i: usize = 0;
    while i < n
        invariant
            n == body@.len(),
            0 <= i <= n,
            out@ == be_bytes(n as nat) + body@.subrange(0, i as int),
        decreases n - i,
    {
        out.push(body[i]);
        assert(be_bytes(n as nat) + body@.subrange(0, i + 1) =~= (be_bytes(n as nat)
            + body@.subrange(0, i as int)).push(body@[i as int]));
        i = i + 1;
    }
    assert(body@.subrange(0, n as int) =~= body@);
    Ok(out)
}

/// Reading back the header of an encoded frame gives the body's length.
pub proof fn law_header_round_trip(n: nat)
    requires
        n < 4294967296,
    ensures
        be_value(be_bytes(n)) == n,
{
    let b = be_bytes(n);
    assert(b[0] as nat == n / 16777216 % 256);
    assert(b[1] as nat == n / 65536 % 256);
    assert(b[2] as nat == n / 256 % 256);
    assert(b[3] as nat == n % 256);
    assert((n / 16777216 % 256) * 16777216 + (n / 65536 % 256) * 65536 + (n / 256 % 256) * 256 + n
        % 256 == n) by (nonlinear_arith)
        requires
            n < 4294967296,
    ;
}

} // verus!
