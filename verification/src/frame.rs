//! Byte-exact encoding and decoding of one WebSocket frame: the two-byte base
//! header, the 7/16/64-bit extended length convention, the optional client
//! mask key, and the payload.
use vstd::prelude::*;

verus! {

/// The opcodes of the base framing layer.
#[derive(Clone, Copy, Debug, PartialEq, Eq, Structural)]
pub enum OpCode {
    Continuation,
    TextFrame,
    BinaryFrame,
    ConnectionClose,
    Ping,
    Pong,
}

/// Why a frame could not be decoded: more bytes are needed, the bytes violate
/// the framing rules (reserved opcode, oversized length), or the transport
/// itself failed.
#[derive(Clone, Copy, Debug, PartialEq, Eq, Structural)]
pub enum DecodeError {
    Incomplete,
    Protocol,
    Io,
}

/// One frame: opcode, final-fragment flag, and its payload bytes.
pub struct Frame {
    pub fin: bool,
    pub opcode: OpCode,
    pub payload: Vec<u8>,
}

/// The mathematical value of a `Frame`.
pub struct FrameView {
    pub fin: bool,
    pub opcode: OpCode,
    pub payload: Seq<u8>,
}

impl View for Frame {
    type V = FrameView;

    open spec fn view(&self) -> FrameView {
        FrameView { fin: self.fin, opcode: self.opcode, payload: self.payload@ }
    }
}

/// The wire value of each opcode.
pub open spec fn opcode_value(op: OpCode) -> u8 {
    match op {
        OpCode::Continuation => 0,
        OpCode::TextFrame => 1,
        OpCode::BinaryFrame => 2,
        OpCode::ConnectionClose => 8,
        OpCode::Ping => 9,
        OpCode::Pong => 10,
    }
}

/// The opcode denoted by a wire value; reserved values denote none.
pub open spec fn opcode_of_value(v: u8) -> Option<OpCode> {
    if v == 0 {
        Some(OpCode::Continuation)
    } else if v == 1 {
        Some(OpCode::TextFrame)
    } else if v == 2 {
        Some(OpCode::BinaryFrame)
    } else if v == 8 {
        Some(OpCode::ConnectionClose)
    } else if v == 9 {
        Some(OpCode::Ping)
    } else if v == 10 {
        Some(OpCode::Pong)
    } else {
        None
    }
}

pub fn opcode_to_value(op: OpCode) -> (r: u8)
    ensures
        r == opcode_value(op),
{
    match op {
        OpCode::Continuation => 0,
        OpCode::TextFrame => 1,
        OpCode::BinaryFrame => 2,
        OpCode::ConnectionClose => 8,
        OpCode::Ping => 9,
        OpCode::Pong => 10,
    }
}

pub fn opcode_from_value(v: u8) -> (r: Option<OpCode>)
    ensures
        r == opcode_of_value(v),
{
    if v == 0 {
        Some(OpCode::Continuation)
    } else if v == 1 {
        Some(OpCode::TextFrame)
    } else if v == 2 {
        Some(OpCode::BinaryFrame)
    } else if v == 8 {
        Some(OpCode::ConnectionClose)
    } else if v == 9 {
        Some(OpCode::Ping)
    } else if v == 10 {
        Some(OpCode::Pong)
    } else {
        None
    }
}

/// 256 to the power `k`.
pub open spec fn pow256(k: nat) -> nat
    decreases k,
{
    if k == 0 {
        1
    } else {
        256 * pow256((k - 1) as nat)
    }
}

/// The `k` big-endian bytes of `n` (most significant first).
pub open spec fn be_bytes(n: nat, k: nat) -> Seq<u8>
    decreases k,
{
    if k == 0 {
        Seq::empty()
    } else {
        be_bytes(n / 256, (k - 1) as nat) + seq![(n % 256) as u8]
    }
}

/// The value of a big-endian byte string.
pub open spec fn be_value(s: Seq<u8>) -> nat
    decreases s.len(),
{
    if s.len() == 0 {
        0
    } else {
        be_value(s.drop_last()) * 256 + (s.last() as nat)
    }
}

pub proof fn lemma_be_bytes_len(n: nat, k: nat)
    ensures
        be_bytes(n, k).len() == k,
    decreases k,
{
    if k > 0 {
        lemma_be_bytes_len(n / 256, (k - 1) as nat);
    }
}

pub proof fn lemma_be_value_bound(s: Seq<u8>)
    ensures
        be_value(s) < pow256(s.len()),
    decreases s.len(),
{
    if s.len() > 0 {
        lemma_be_value_bound(s.drop_last());
        let v = be_value(s.drop_last());
        let p = pow256((s.len() - 1) as nat);
        assert(v * 256 + 255 < 256 * p) by (nonlinear_arith)
            requires
                v < p,
        ;
    }
}

pub proof fn lemma_pow256_increases(i: nat, j: nat)
    requires
        i <= j,
    ensures
        pow256(i) <= pow256(j),
    decreases j,
{
    if i < j {
        lemma_pow256_increases(i, (j - 1) as nat);
        assert(pow256((j - 1) as nat) <= 256 * pow256((j - 1) as nat));
    }
}

/// Reading back the big-endian bytes of `n` yields `n`, provided `n` fits in
/// `k` bytes.
pub proof fn lemma_be_round_trip(n: nat, k: nat)
    requires
        n < pow256(k),
    ensures
        be_value(be_bytes(n, k)) == n,
    decreases k,
{
    if k == 0 {
        assert(n == 0);
    } else {
        let q = n / 256;
        assert(q < pow256((k - 1) as nat)) by (nonlinear_arith)
            requires
                n < 256 * pow256((k - 1) as nat),
                q == n / 256,
        ;
        lemma_be_round_trip(q, (k - 1) as nat);
        let s = be_bytes(n, k);
        lemma_be_bytes_len(q, (k - 1) as nat);
        assert(s.drop_last() =~= be_bytes(q, (k - 1) as nat));
        assert(s.last() == (n % 256) as u8);
        assert(q * 256 + n % 256 == n) by (nonlinear_arith)
            requires
                q == n / 256,
        ;
    }
}

/// Appends the `k` big-endian bytes of `n` to `out`.
fn push_be_bytes(out: &mut Vec<u8>, n: u64, k: usize)
    ensures
        final(out)@ == old(out)@ + be_bytes(n as nat, k as nat),
    decreases k,
{
    if k == 0 {
        assert(out@ =~= old(out)@ + be_bytes(n as nat, 0));
    } else {
        push_be_bytes(out, n / 256, k - 1);
        out.push((n % 256) as u8);
        assert(out@ =~= old(out)@ + be_bytes(n as nat, k as nat));
    }
}

/// The first header byte: the FIN bit over the opcode's wire value.
pub open spec fn first_byte(fin: bool, op: OpCode) -> u8 {
    (opcode_value(op) + if fin {
        128int
    } else {
        0int
    }) as u8
}

/// The length field: a one-byte code up to 125, or the code 126 with two
/// extended bytes, or the code 127 with eight.
pub open spec fn len_field(n: nat) -> Seq<u8> {
    if n <= 125 {
        seq![n as u8]
    } else if n < 0x10000 {
        seq![126u8] + be_bytes(n, 2)
    } else {
        seq![127u8] + be_bytes(n, 8)
    }
}

/// The wire bytes of a server-originated frame. The mask bit is never set:
/// masking is mandatory only from client to server.
pub open spec fn encode_spec(f: FrameView) -> Seq<u8> {
    seq![first_byte(f.fin, f.opcode)] + len_field(f.payload.len()) + f.payload
}

/// What decoding a byte string yields: a frame and the number of bytes it
/// occupied, or the reason none could be produced. Payloads longer than `max`
/// are rejected as a protocol violation.
pub open spec fn decode_spec(s: Seq<u8>, max: nat) -> Result<(FrameView, nat), DecodeError> {
    if s.len() < 2 {
        Err(DecodeError::Incomplete)
    } else {
        let b0 = s[0];
        let fin = b0 / 128 == 1;
        match opcode_of_value(b0 % 16) {
            None => Err(DecodeError::Protocol),
            Some(op) => {
                let b1 = s[1];
                let masked = b1 / 128 == 1;
                let code = (b1 % 128) as nat;
                let ext: int = if code == 126 {
                    2
                } else if code == 127 {
                    8
                } else {
                    0
                };
                if s.len() < 2 + ext {
                    Err(DecodeError::Incomplete)
                } else {
                    let len = if code == 126 {
                        be_value(s.subrange(2, 4))
                    } else if code == 127 {
                        be_value(s.subrange(2, 10))
                    } else {
                        code
                    };
                    if len > max {
                        Err(DecodeError::Protocol)
                    } else {
                        let hdr = 2 + ext + if masked {
                            4int
                        } else {
                            0int
                        };
                        if s.len() < hdr + len {
                            Err(DecodeError::Incomplete)
                        } else {
                            let raw = s.subrange(hdr, hdr + len);
                            let payload = if masked {
                                Seq::new(len, |i: int| raw[i] ^ s[2 + ext + (i % 4)])
                            } else {
                                raw
                            };
                            Ok((FrameView { fin, opcode: op, payload }, (hdr + len) as nat))
                        }
                    }
                }
            },
        }
    }
}

/// Reads `count` big-endian bytes starting at `start`.
fn read_be(buf: &Vec<u8>, start: usize, count: usize) -> (r: u64)
    requires
        start + count <= buf@.len(),
        count <= 8,
    ensures
        r as nat == be_value(buf@.subrange(start as int, (start + count) as int)),
{
    let blen: usize = buf.len();
    let mut acc: u64 = 0;
    let mut i: usize = 0;
    proof {
        assert(buf@.subrange(start as int, start as int) =~= Seq::<u8>::empty());
    }
    while i < count
        invariant
            i <= count,
            count <= 8,
            start + count <= blen,
            blen == buf@.len(),
            acc as nat == be_value(buf@.subrange(start as int, (start + i) as int)),
        decreases count - i,
    {
        proof {
            let pre = buf@.subrange(start as int, (start + i) as int);
            lemma_be_value_bound(pre);
            lemma_pow256_increases(pre.len(), 7);
            assert(pow256(7) == 0x100000000000000) by {
                reveal_with_fuel(pow256, 9);
            }
            assert(acc < 0x100000000000000);
            assert(buf@.subrange(start as int, (start + i + 1) as int).drop_last() =~= pre);
        }
        acc = acc * 256 + (buf[start + i] as u64);
        i = i + 1;
    }
    acc
}

/// Round-trip framing: decoding the encoding of a frame yields that frame and
/// consumes exactly its wire length, whatever bytes follow it, for every
/// payload within the configured maximum that fits in the 64-bit length field.
pub proof fn lemma_frame_round_trip(f: FrameView, max: nat, rest: Seq<u8>)
    requires
        f.payload.len() <= max,
        f.payload.len() < 0x10000000000000000,
    ensures
        decode_spec(encode_spec(f) + rest, max) == Ok::<(FrameView, nat), DecodeError>(
            (f, encode_spec(f).len()),
        ),
{
    let n = f.payload.len();
    let lf = len_field(n);
    let e = encode_spec(f);
    let s = e + rest;
    let b0 = first_byte(f.fin, f.opcode);
    lemma_be_bytes_len(n, 2);
    lemma_be_bytes_len(n, 8);
    assert(e.len() == 1 + lf.len() + n);
    assert(s[0] == b0);
    assert(s[1] == lf[0]);
    assert(opcode_value(f.opcode) <= 10);
    assert(b0 / 128 == if f.fin {
        1int
    } else {
        0int
    });
    assert(b0 % 16 == opcode_value(f.opcode));
    assert(opcode_of_value(opcode_value(f.opcode)) == Some(f.opcode));
    if n <= 125 {
        let b1 = lf[0];
        assert(b1 == n as u8);
        assert(b1 / 128 == 0 && b1 % 128 == n);
        assert(s.subrange(2, 2 + n as int) =~= f.payload);
        assert(decode_spec(s, max) == Ok::<(FrameView, nat), DecodeError>((f, e.len())));
    } else if n < 0x10000 {
        assert(lf[0] == 126u8);
        assert(s.subrange(2, 4) =~= be_bytes(n, 2));
        assert(pow256(2) == 0x10000) by {
            reveal_with_fuel(pow256, 3);
        }
        lemma_be_round_trip(n, 2);
        assert(s.subrange(4, 4 + n as int) =~= f.payload);
        assert(decode_spec(s, max) == Ok::<(FrameView, nat), DecodeError>((f, e.len())));
    } else {
        assert(lf[0] == 127u8);
        assert(s.subrange(2, 10) =~= be_bytes(n, 8));
        assert(pow256(8) == 0x10000000000000000) by {
            reveal_with_fuel(pow256, 9);
        }
        lemma_be_round_trip(n, 8);
        assert(s.subrange(10, 10 + n as int) =~= f.payload);
        assert(decode_spec(s, max) == Ok::<(FrameView, nat), DecodeError>((f, e.len())));
    }
}

/// Copies the bytes of `src` onto the end of `out`.
fn append_bytes(out: &mut Vec<u8>, src: &Vec<u8>)
    ensures
        final(out)@ == old(out)@ + src@,
{
    let mut i: usize = 0;
    while i < src.len()
        invariant
            i <= src@.len(),
            out@ == old(out)@ + src@.subrange(0, i as int),
        decreases src@.len() - i,
    {
        out.push(src[i]);
        i = i + 1;
        proof {
            assert(out@ =~= old(out)@ + src@.subrange(0, i as int));
        }
    }
    proof {
        assert(src@.subrange(0, src@.len() as int) =~= src@);
    }
}

/// A fresh copy of a byte vector.
fn clone_bytes(src: &Vec<u8>) -> (r: Vec<u8>)
    ensures
        r@ == src@,
{
    let mut r: Vec<u8> = Vec::new();
    append_bytes(&mut r, src);
    proof {
        assert(r@ =~= src@);
    }
    r
}

/// Appends the wire representation of `frame` to `out`. Frames written by
/// this side are never masked.
pub fn encode(frame: &Frame, out: &mut Vec<u8>)
    ensures
        final(out)@ == old(out)@ + encode_spec(frame@),
{
    let n = frame.payload.len();
    let b0: u8 = opcode_to_value(frame.opcode) + if frame.fin {
        128
    } else {
        0
    };
    out.push(b0);
    if n <= 125 {
        out.push(n as u8);
    } else if n <= 65535 {
        out.push(126);
        push_be_bytes(out, n as u64, 2);
    } else {
        out.push(127);
        push_be_bytes(out, n as u64, 8);
    }
    proof {
        assert(out@ =~= old(out)@ + seq![first_byte(frame.fin, frame.opcode)] + len_field(
            frame@.payload.len(),
        ));
    }
    append_bytes(out, &frame.payload);
    proof {
        assert(out@ =~= old(out)@ + encode_spec(frame@));
    }
}

/// The protocol's answer to a ping: a pong frame echoing the payload.
pub fn pong_for(ping: &Frame) -> (r: Frame)
    ensures
        r@.opcode == OpCode::Pong,
        r@.fin == true,
        r@.payload == ping@.payload,
{
    Frame { fin: true, opcode: OpCode::Pong, payload: clone_bytes(&ping.payload) }
}

/// Decodes one frame from the front of `buf`, unmasking the payload when the
/// mask bit is set; on success also returns how many bytes the frame took.
pub fn decode(buf: &Vec<u8>, max_len: usize) -> (r: Result<(Frame, usize), DecodeError>)
    ensures
        match r {
            Ok(p) => decode_spec(buf@, max_len as nat) == Ok::<(FrameView, nat), DecodeError>(
                (p.0@, p.1 as nat),
            ) && 2 <= p.1 <= buf@.len(),
            Err(e) => decode_spec(buf@, max_len as nat) == Err::<(FrameView, nat), DecodeError>(e),
        },
{
    let blen = buf.len();
    if blen < 2 {
        return Err(DecodeError::Incomplete);
    }
    let b0 = buf[0];
    let fin = b0 / 128 == 1;
    let op = match opcode_from_value(b0 % 16) {
        None => {
            return Err(DecodeError::Protocol);
        },
        Some(op) => op,
    };
    let b1 = buf[1];
    let masked = b1 / 128 == 1;
    let code = b1 % 128;
    let ext: usize = if code == 126 {
        2
    } else if code == 127 {
        8
    } else {
        0
    };
    if blen < 2 + ext {
        return Err(DecodeError::Incomplete);
    }
    let len64: u64 = if code == 126 {
        read_be(buf, 2, 2)
    } else if code == 127 {
        read_be(buf, 2, 8)
    } else {
        code as u64
    };
    if len64 > max_len as u64 {
        return Err(DecodeError::Protocol);
    }
    let len: usize = len64 as usize;
    let hdr: usize = 2 + ext + if masked {
        4
    } else {
        0
    };
    if blen < hdr || blen - hdr < len {
        return Err(DecodeError::Incomplete);
    }
    let ghost raw = buf@.subrange(hdr as int, hdr + len);
    let mut payload: Vec<u8> = Vec::new();
    if masked {
        let mut i: usize = 0;
        while i < len
            invariant
                i <= len,
                hdr + len <= blen,
                blen == buf@.len(),
                hdr == 2 + ext + 4,
                ext <= 8,
                payload@.len() == i,
                forall|j: int|
                    0 <= j < i ==> payload@[j] == (buf@[hdr + j] ^ buf@[2 + ext + (j % 4)]),
            decreases len - i,
        {
            payload.push(buf[hdr + i] ^ buf[2 + ext + (i % 4)]);
            i = i + 1;
        }
        proof {
            assert(payload@ =~= Seq::new(len as nat, |i: int| raw[i] ^ buf@[2 + ext + (i % 4)]));
        }
    } else {
        let mut i: usize = 0;
        while i < len
            invariant
                i <= len,
                hdr + len <= blen,
                blen == buf@.len(),
                payload@ == buf@.subrange(hdr as int, hdr + i),
            decreases len - i,
        {
            payload.push(buf[hdr + i]);
            i = i + 1;
            proof {
                assert(payload@ =~= buf@.subrange(hdr as int, hdr + i));
            }
        }
        proof {
            assert(payload@ =~= raw);
        }
    }
    Ok((Frame { fin, opcode: op, payload }, hdr + len))
}

} // verus!

