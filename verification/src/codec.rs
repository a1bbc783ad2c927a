//! The wire encoding of datagrams and their self-delimited framing.
//!
//! A frame is `src` (8 bytes, big-endian), the payload length (8 bytes,
//! big-endian), then the payload. The payload is the datagram as a tagged
//! union: a leading discriminant byte per variant, scalars little-endian,
//! an `Option` as a one-byte tag. A `SequenceNumber` is its `time_stamp`
//! (16 bytes) followed by its `server_id` (8 bytes). Decoding accepts
//! exactly the encodings and rejects everything else, and decoding an
//! encoded frame returns the original source id and datagram.

use vstd::arithmetic::div_mod::lemma_fundamental_div_mod;
use vstd::prelude::*;

use crate::proposal::{AcceptedProposal, Datagram, Request, Response};
use crate::seq_num::SequenceNumber;

verus! {

/// 256 to the power `n`: the number of values `n` bytes can hold.
pub open spec fn pow256(n: nat) -> nat
    decreases n,
{
    if n == 0 {
        1
    } else {
        256 * pow256((n - 1) as nat)
    }
}

proof fn lemma_pow256_vals()
    ensures
        pow256(0) == 1,
        pow256(1) == 0x100,
        pow256(2) == 0x10000,
        pow256(4) == 0x1_0000_0000,
        pow256(7) == 0x100_0000_0000_0000,
        pow256(8) == 0x1_0000_0000_0000_0000,
        pow256(15) == 0x1000000_00000000_00000000_00000000,
        pow256(16) == 0x1_00000000_00000000_00000000_00000000,
{
    reveal_with_fuel(pow256, 17);
}

proof fn lemma_pow256_increases(a: nat, b: nat)
    requires
        a <= b,
    ensures
        pow256(a) <= pow256(b),
    decreases b,
{
    if a < b {
        lemma_pow256_increases(a, (b - 1) as nat);
        assert(pow256(b) == 256 * pow256((b - 1) as nat));
        assert(pow256((b - 1) as nat) >= 1) by {
            lemma_pow256_pos((b - 1) as nat);
        }
    }
}

proof fn lemma_pow256_pos(n: nat)
    ensures
        pow256(n) >= 1,
    decreases n,
{
    if n > 0 {
        lemma_pow256_pos((n - 1) as nat);
    }
}

/// The `n` little-endian bytes of `x` (low byte first).
pub open spec fn le_bytes(x: nat, n: nat) -> Seq<u8>
    decreases n,
{
    if n == 0 {
        Seq::empty()
    } else {
        seq![(x % 256) as u8] + le_bytes(x / 256, (n - 1) as nat)
    }
}

/// The value of a little-endian byte string.
pub open spec fn le_val(s: Seq<u8>) -> nat
    decreases s.len(),
{
    if s.len() == 0 {
        0
    } else {
        s[0] as nat + 256 * le_val(s.drop_first())
    }
}

proof fn lemma_le_bytes_len(x: nat, n: nat)
    ensures
        le_bytes(x, n).len() == n,
    decreases n,
{
    if n > 0 {
        lemma_le_bytes_len(x / 256, (n - 1) as nat);
    }
}

proof fn lemma_le_val_bound(s: Seq<u8>)
    ensures
        le_val(s) < pow256(s.len()),
    decreases s.len(),
{
    if s.len() > 0 {
        lemma_le_val_bound(s.drop_first());
    }
}

proof fn lemma_le_round_trip(x: nat, n: nat)
    requires
        x < pow256(n),
    ensures
        le_val(le_bytes(x, n)) == x,
    decreases n,
{
    if n == 0 {
    } else {
        let m = (n - 1) as nat;
        assert(x / 256 < pow256(m)) by (nonlinear_arith)
            requires
                x < 256 * pow256(m),
        {
        }
        lemma_le_round_trip(x / 256, m);
        let s = seq![(x % 256) as u8] + le_bytes(x / 256, m);
        assert(s.drop_first() =~= le_bytes(x / 256, m));
        lemma_fundamental_div_mod(x as int, 256);
    }
}

/// The `n` big-endian bytes of `x` (high byte first), as the frame header
/// carries its fields.
pub open spec fn be_bytes(x: nat, n: nat) -> Seq<u8>
    decreases n,
{
    if n == 0 {
        Seq::empty()
    } else {
        be_bytes(x / 256, (n - 1) as nat).push((x % 256) as u8)
    }
}

/// The value of a big-endian byte string.
pub open spec fn be_val(s: Seq<u8>) -> nat
    decreases s.len(),
{
    if s.len() == 0 {
        0
    } else {
        256 * be_val(s.drop_last()) + s.last() as nat
    }
}

proof fn lemma_be_bytes_len(x: nat, n: nat)
    ensures
        be_bytes(x, n).len() == n,
    decreases n,
{
    if n > 0 {
        lemma_be_bytes_len(x / 256, (n - 1) as nat);
    }
}

proof fn lemma_be_val_bound(s: Seq<u8>)
    ensures
        be_val(s) < pow256(s.len()),
    decreases s.len(),
{
    if s.len() > 0 {
        lemma_be_val_bound(s.drop_last());
    }
}

proof fn lemma_be_round_trip(x: nat, n: nat)
    requires
        x < pow256(n),
    ensures
        be_val(be_bytes(x, n)) == x,
    decreases n,
{
    if n == 0 {
    } else {
        let m = (n - 1) as nat;
        assert(x / 256 < pow256(m)) by (nonlinear_arith)
            requires
                x < 256 * pow256(m),
        {
        }
        lemma_be_round_trip(x / 256, m);
        lemma_be_bytes_len(x / 256, m);
        let s = be_bytes(x / 256, m).push((x % 256) as u8);
        assert(s.drop_last() =~= be_bytes(x / 256, m));
        lemma_fundamental_div_mod(x as int, 256);
    }
}

/// Appends the `n` little-endian bytes of `x`.
fn push_le(buf: &mut Vec<u8>, x: u128, n: usize)
    requires
        n <= 16,
    ensures
        final(buf)@ == old(buf)@ + le_bytes(x as nat, n as nat),
    decreases n,
{
    if n == 0 {
        proof {
            assert(buf@ =~= buf@ + le_bytes(x as nat, 0));
        }
    } else {
        buf.push((x % 256) as u8);
        push_le(buf, x / 256, n - 1);
        proof {
            assert(buf@ =~= old(buf)@ + le_bytes(x as nat, n as nat));
        }
    }
}

/// Reads `n` little-endian bytes starting at `off`.
fn read_le(buf: &Vec<u8>, off: usize, n: usize) -> (r: u128)
    requires
        n <= 16,
        off + n <= buf.len(),
    ensures
        r as nat == le_val(buf@.subrange(off as int, off + n)),
        (r as nat) < pow256(n as nat),
    decreases n,
{
    proof {
        lemma_le_val_bound(buf@.subrange(off as int, off + n));
    }
    if n == 0 {
        proof {
            assert(buf@.subrange(off as int, off as int) =~= Seq::<u8>::empty());
        }
        0
    } else {
        let rest = read_le(buf, off + 1, n - 1);
        proof {
            lemma_pow256_increases((n - 1) as nat, 15);
            lemma_pow256_vals();
            let s = buf@.subrange(off as int, off + n);
            assert(s.drop_first() =~= buf@.subrange(off + 1, off + n));
            assert(s[0] == buf@[off as int]);
        }
        buf[off] as u128 + 256 * rest
    }
}

/// Appends the `n` big-endian bytes of `x`.
fn push_be(buf: &mut Vec<u8>, x: u64, n: usize)
    requires
        n <= 8,
    ensures
        final(buf)@ == old(buf)@ + be_bytes(x as nat, n as nat),
    decreases n,
{
    if n == 0 {
        proof {
            assert(buf@ =~= buf@ + be_bytes(x as nat, 0));
        }
    } else {
        push_be(buf, x / 256, n - 1);
        buf.push((x % 256) as u8);
        proof {
            assert(buf@ =~= old(buf)@ + be_bytes(x as nat, n as nat));
        }
    }
}

/// Reads `n` big-endian bytes starting at `off`.
fn read_be(buf: &Vec<u8>, off: usize, n: usize) -> (r: u64)
    requires
        n <= 8,
        off + n <= buf.len(),
    ensures
        r as nat == be_val(buf@.subrange(off as int, off + n)),
        (r as nat) < pow256(n as nat),
    decreases n,
{
    proof {
        lemma_be_val_bound(buf@.subrange(off as int, off + n));
    }
    if n == 0 {
        proof {
            assert(buf@.subrange(off as int, off as int) =~= Seq::<u8>::empty());
        }
        0
    } else {
        let hi = read_be(buf, off, n - 1);
        proof {
            lemma_pow256_increases((n - 1) as nat, 7);
            lemma_pow256_vals();
            let s = buf@.subrange(off as int, off + n);
            assert(s.drop_last() =~= buf@.subrange(off as int, off + n - 1));
            assert(s.last() == buf@[off + n - 1]);
        }
        256 * hi + buf[off + n - 1] as u64
    }
}

/// The 24-byte encoding of a ballot.
pub open spec fn ballot_bytes(b: SequenceNumber) -> Seq<u8> {
    le_bytes(b.time_stamp as nat, 16) + le_bytes(b.server_id as nat, 8)
}

/// The ballot a 24-byte string denotes.
pub open spec fn ballot_of(s: Seq<u8>) -> SequenceNumber {
    SequenceNumber {
        time_stamp: le_val(s.subrange(0, 16)) as u128,
        server_id: le_val(s.subrange(16, 24)) as u64,
    }
}

proof fn lemma_ballot_round_trip(b: SequenceNumber)
    ensures
        ballot_bytes(b).len() == 24,
        ballot_of(ballot_bytes(b)) == b,
{
    lemma_pow256_vals();
    lemma_le_bytes_len(b.time_stamp as nat, 16);
    lemma_le_bytes_len(b.server_id as nat, 8);
    let s = ballot_bytes(b);
    assert(s.subrange(0, 16) =~= le_bytes(b.time_stamp as nat, 16));
    assert(s.subrange(16, 24) =~= le_bytes(b.server_id as nat, 8));
    lemma_le_round_trip(b.time_stamp as nat, 16);
    lemma_le_round_trip(b.server_id as nat, 8);
}

fn push_ballot(buf: &mut Vec<u8>, b: SequenceNumber)
    ensures
        final(buf)@ == old(buf)@ + ballot_bytes(b),
{
    push_le(buf, b.time_stamp, 16);
    push_le(buf, b.server_id as u128, 8);
    proof {
        assert(buf@ =~= old(buf)@ + ballot_bytes(b));
    }
}

fn read_ballot(buf: &Vec<u8>, off: usize) -> (r: SequenceNumber)
    requires
        off + 24 <= buf.len(),
    ensures
        r == ballot_of(buf@.subrange(off as int, off + 24)),
{
    let ts = read_le(buf, off, 16);
    let id = read_le(buf, off + 16, 8);
    proof {
        lemma_pow256_vals();
        let s = buf@.subrange(off as int, off + 24);
        assert(s.subrange(0, 16) =~= buf@.subrange(off as int, off + 16));
        assert(s.subrange(16, 24) =~= buf@.subrange(off + 16, off + 24));
    }
    SequenceNumber { time_stamp: ts, server_id: id as u64 }
}

/// The payload bytes of a request.
pub open spec fn req_bytes(r: Request) -> Seq<u8> {
    match r {
        Request::Propose { value } => seq![0u8] + le_bytes(value as nat, 4),
        Request::Prepare { seq } => seq![1u8] + ballot_bytes(seq),
        Request::Accept { seq, value } => seq![2u8] + ballot_bytes(seq) + le_bytes(
            value as nat,
            4,
        ),
        Request::Learn { value } => seq![3u8] + le_bytes(value as nat, 4),
        Request::Query => seq![4u8],
    }
}

/// The payload bytes of a response.
pub open spec fn resp_bytes(r: Response) -> Seq<u8> {
    match r {
        Response::Prepare(None) => seq![0u8, 0u8],
        Response::Prepare(Some(ap)) => seq![0u8, 1u8] + ballot_bytes(ap.seq) + le_bytes(
            ap.val as nat,
            4,
        ),
        Response::Accepted { seq } => seq![1u8] + ballot_bytes(seq),
        Response::Query { val: None } => seq![2u8, 0u8],
        Response::Query { val: Some(v) } => seq![2u8, 1u8] + le_bytes(v as nat, 4),
    }
}

/// The payload bytes of a datagram.
pub open spec fn dgram_bytes(d: Datagram) -> Seq<u8> {
    match d {
        Datagram::Request(r) => seq![0u8] + req_bytes(r),
        Datagram::Response(r) => seq![1u8] + resp_bytes(r),
    }
}

/// A whole frame: big-endian source id, big-endian payload length, payload.
pub open spec fn frame_bytes(d: Datagram, src: u64) -> Seq<u8> {
    be_bytes(src as nat, 8) + be_bytes(dgram_bytes(d).len(), 8) + dgram_bytes(d)
}

/// The request a payload denotes, if it is exactly an encoding.
pub open spec fn dec_req(s: Seq<u8>) -> Option<Request> {
    if s.len() < 1 {
        None
    } else if s[0] == 0u8 && s.len() == 5 {
        Some(Request::Propose { value: le_val(s.subrange(1, 5)) as u32 })
    } else if s[0] == 1u8 && s.len() == 25 {
        Some(Request::Prepare { seq: ballot_of(s.subrange(1, 25)) })
    } else if s[0] == 2u8 && s.len() == 29 {
        Some(
            Request::Accept {
                seq: ballot_of(s.subrange(1, 25)),
                value: le_val(s.subrange(25, 29)) as u32,
            },
        )
    } else if s[0] == 3u8 && s.len() == 5 {
        Some(Request::Learn { value: le_val(s.subrange(1, 5)) as u32 })
    } else if s[0] == 4u8 && s.len() == 1 {
        Some(Request::Query)
    } else {
        None
    }
}

/// The response a payload denotes, if it is exactly an encoding.
pub open spec fn dec_resp(s: Seq<u8>) -> Option<Response> {
    if s.len() < 2 {
        None
    } else if s[0] == 0u8 && s[1] == 0u8 && s.len() == 2 {
        Some(Response::Prepare(None))
    } else if s[0] == 0u8 && s[1] == 1u8 && s.len() == 30 {
        Some(
            Response::Prepare(
                Some(
                    AcceptedProposal {
                        seq: ballot_of(s.subrange(2, 26)),
                        val: le_val(s.subrange(26, 30)) as u32,
                    },
                ),
            ),
        )
    } else if s[0] == 1u8 && s.len() == 25 {
        Some(Response::Accepted { seq: ballot_of(s.subrange(1, 25)) })
    } else if s[0] == 2u8 && s[1] == 0u8 && s.len() == 2 {
        Some(Response::Query { val: None })
    } else if s[0] == 2u8 && s[1] == 1u8 && s.len() == 6 {
        Some(Response::Query { val: Some(le_val(s.subrange(2, 6)) as u32) })
    } else {
        None
    }
}

/// The datagram a payload denotes, if it is exactly an encoding.
pub open spec fn dec_dgram(s: Seq<u8>) -> Option<Datagram> {
    if s.len() < 1 {
        None
    } else if s[0] == 0u8 {
        match dec_req(s.drop_first()) {
            Some(r) => Some(Datagram::Request(r)),
            None => None,
        }
    } else if s[0] == 1u8 {
        match dec_resp(s.drop_first()) {
            Some(r) => Some(Datagram::Response(r)),
            None => None,
        }
    } else {
        None
    }
}

/// The source id and payload length a 16-byte frame header announces.
pub open spec fn dec_header(s: Seq<u8>) -> Option<(u64, u64)> {
    if s.len() < 16 {
        None
    } else {
        Some((be_val(s.subrange(0, 8)) as u64, be_val(s.subrange(8, 16)) as u64))
    }
}

/// The source id and datagram a whole frame denotes, if it is exactly an
/// encoding whose announced length matches.
pub open spec fn dec_frame(s: Seq<u8>) -> Option<(u64, Datagram)> {
    if s.len() < 16 {
        None
    } else if be_val(s.subrange(8, 16)) == s.len() - 16 {
        match dec_dgram(s.subrange(16, s.len() as int)) {
            Some(d) => Some((be_val(s.subrange(0, 8)) as u64, d)),
            None => None,
        }
    } else {
        None
    }
}

fn push_req(buf: &mut Vec<u8>, r: Request)
    ensures
        final(buf)@ == old(buf)@ + req_bytes(r),
{
    match r {
        Request::Propose { value } => {
            buf.push(0u8);
            push_le(buf, value as u128, 4);
        },
        Request::Prepare { seq } => {
            buf.push(1u8);
            push_ballot(buf, seq);
        },
        Request::Accept { seq, value } => {
            buf.push(2u8);
            push_ballot(buf, seq);
            push_le(buf, value as u128, 4);
        },
        Request::Learn { value } => {
            buf.push(3u8);
            push_le(buf, value as u128, 4);
        },
        Request::Query => {
            buf.push(4u8);
        },
    }
    proof {
        assert(buf@ =~= old(buf)@ + req_bytes(r));
    }
}

fn push_resp(buf: &mut Vec<u8>, r: Response)
    ensures
        final(buf)@ == old(buf)@ + resp_bytes(r),
{
    match r {
        Response::Prepare(None) => {
            buf.push(0u8);
            buf.push(0u8);
        },
        Response::Prepare(Some(ap)) => {
            buf.push(0u8);
            buf.push(1u8);
            push_ballot(buf, ap.seq);
            push_le(buf, ap.val as u128, 4);
        },
        Response::Accepted { seq } => {
            buf.push(1u8);
            push_ballot(buf, seq);
        },
        Response::Query { val: None } => {
            buf.push(2u8);
            buf.push(0u8);
        },
        Response::Query { val: Some(v) } => {
            buf.push(2u8);
            buf.push(1u8);
            push_le(buf, v as u128, 4);
        },
    }
    proof {
        assert(buf@ =~= old(buf)@ + resp_bytes(r));
    }
}

proof fn lemma_req_bytes_len(r: Request)
    ensures
        1 <= req_bytes(r).len() <= 29,
{
    match r {
        Request::Propose { value } => lemma_le_bytes_len(value as nat, 4),
        Request::Prepare { seq } => lemma_ballot_round_trip(seq),
        Request::Accept { seq, value } => {
            lemma_ballot_round_trip(seq);
            lemma_le_bytes_len(value as nat, 4);
        },
        Request::Learn { value } => lemma_le_bytes_len(value as nat, 4),
        Request::Query => {},
    }
}

proof fn lemma_dgram_bytes_len(d: Datagram)
    ensures
        2 <= dgram_bytes(d).len() <= 31,
{
    match d {
        Datagram::Request(r) => {
            lemma_req_bytes_len(r);
            assert(dgram_bytes(d).len() == 1 + req_bytes(r).len());
            match r {
                Request::Propose { value } => lemma_le_bytes_len(value as nat, 4),
                Request::Prepare { seq } => lemma_ballot_round_trip(seq),
                Request::Accept { seq, value } => {
                    lemma_ballot_round_trip(seq);
                    lemma_le_bytes_len(value as nat, 4);
                },
                Request::Learn { value } => lemma_le_bytes_len(value as nat, 4),
                Request::Query => {},
            }
        },
        Datagram::Response(r) => {
            match r {
                Response::Prepare(None) => {},
                Response::Prepare(Some(ap)) => {
                    lemma_ballot_round_trip(ap.seq);
                    lemma_le_bytes_len(ap.val as nat, 4);
                },
                Response::Accepted { seq } => lemma_ballot_round_trip(seq),
                Response::Query { val: None } => {},
                Response::Query { val: Some(v) } => lemma_le_bytes_len(v as nat, 4),
            }
        },
    }
}

impl Datagram {
    /// Encodes the payload alone, without the frame header.
    pub fn encode(&self) -> (r: Vec<u8>)
        ensures
            r@ == dgram_bytes(*self),
    {
        let mut buf: Vec<u8> = Vec::new();
        match self {
            Datagram::Request(req) => {
                buf.push(0u8);
                push_req(&mut buf, *req);
            },
            Datagram::Response(resp) => {
                buf.push(1u8);
                push_resp(&mut buf, *resp);
            },
        }
        proof {
            assert(buf@ =~= dgram_bytes(*self));
        }
        buf
    }

    /// Encodes a whole frame carrying this datagram, stamped with the
    /// sender's id.
    pub fn encode_with_src(&self, src: u64) -> (r: Vec<u8>)
        ensures
            r@ == frame_bytes(*self, src),
    {
        let mut payload = self.encode();
        let mut buf: Vec<u8> = Vec::new();
        push_be(&mut buf, src, 8);
        push_be(&mut buf, payload.len() as u64, 8);
        buf.append(&mut payload);
        proof {
            assert(buf@ =~= frame_bytes(*self, src));
        }
        buf
    }
}

fn req_at(buf: &Vec<u8>, off: usize) -> (r: Option<Request>)
    requires
        off <= buf.len(),
    ensures
        r == dec_req(buf@.subrange(off as int, buf.len() as int)),
{
    let ghost s = buf@.subrange(off as int, buf.len() as int);
    let n = buf.len() - off;
    if n < 1 {
        return None;
    }
    let tag = buf[off];
    proof {
        assert(s[0] == buf@[off as int]);
    }
    if tag == 0 && n == 5 {
        let v = read_le(buf, off + 1, 4);
        proof {
            lemma_pow256_vals();
            assert(s.subrange(1, 5) =~= buf@.subrange(off + 1, off + 5));
        }
        Some(Request::Propose { value: v as u32 })
    } else if tag == 1 && n == 25 {
        let b = read_ballot(buf, off + 1);
        proof {
            assert(s.subrange(1, 25) =~= buf@.subrange(off + 1, off + 25));
        }
        Some(Request::Prepare { seq: b })
    } else if tag == 2 && n == 29 {
        let b = read_ballot(buf, off + 1);
        let v = read_le(buf, off + 25, 4);
        proof {
            lemma_pow256_vals();
            assert(s.subrange(1, 25) =~= buf@.subrange(off + 1, off + 25));
            assert(s.subrange(25, 29) =~= buf@.subrange(off + 25, off + 29));
        }
        Some(Request::Accept { seq: b, value: v as u32 })
    } else if tag == 3 && n == 5 {
        let v = read_le(buf, off + 1, 4);
        proof {
            lemma_pow256_vals();
            assert(s.subrange(1, 5) =~= buf@.subrange(off + 1, off + 5));
        }
        Some(Request::Learn { value: v as u32 })
    } else if tag == 4 && n == 1 {
        Some(Request::Query)
    } else {
        None
    }
}

fn resp_at(buf: &Vec<u8>, off: usize) -> (r: Option<Response>)
    requires
        off <= buf.len(),
    ensures
        r == dec_resp(buf@.subrange(off as int, buf.len() as int)),
{
    let ghost s = buf@.subrange(off as int, buf.len() as int);
    let n = buf.len() - off;
    if n < 2 {
        return None;
    }
    let tag = buf[off];
    let tag2 = buf[off + 1];
    proof {
        assert(s[0] == buf@[off as int]);
        assert(s[1] == buf@[off + 1]);
    }
    if tag == 0 && tag2 == 0 && n == 2 {
        Some(Response::Prepare(None))
    } else if tag == 0 && tag2 == 1 && n == 30 {
        let b = read_ballot(buf, off + 2);
        let v = read_le(buf, off + 26, 4);
        proof {
            lemma_pow256_vals();
            assert(s.subrange(2, 26) =~= buf@.subrange(off + 2, off + 26));
            assert(s.subrange(26, 30) =~= buf@.subrange(off + 26, off + 30));
        }
        Some(Response::Prepare(Some(AcceptedProposal { seq: b, val: v as u32 })))
    } else if tag == 1 && n == 25 {
        let b = read_ballot(buf, off + 1);
        proof {
            assert(s.subrange(1, 25) =~= buf@.subrange(off + 1, off + 25));
        }
        Some(Response::Accepted { seq: b })
    } else if tag == 2 && tag2 == 0 && n == 2 {
        Some(Response::Query { val: None })
    } else if tag == 2 && tag2 == 1 && n == 6 {
        let v = read_le(buf, off + 2, 4);
        proof {
            lemma_pow256_vals();
            assert(s.subrange(2, 6) =~= buf@.subrange(off + 2, off + 6));
        }
        Some(Response::Query { val: Some(v as u32) })
    } else {
        None
    }
}

fn dgram_at(buf: &Vec<u8>, off: usize) -> (r: Option<Datagram>)
    requires
        off <= buf.len(),
    ensures
        r == dec_dgram(buf@.subrange(off as int, buf.len() as int)),
{
    let ghost s = buf@.subrange(off as int, buf.len() as int);
    if buf.len() - off < 1 {
        return None;
    }
    let tag = buf[off];
    proof {
        assert(s[0] == buf@[off as int]);
        assert(s.drop_first() =~= buf@.subrange(off + 1, buf.len() as int));
    }
    if tag == 0 {
        match req_at(buf, off + 1) {
            Some(r) => Some(Datagram::Request(r)),
            None => None,
        }
    } else if tag == 1 {
        match resp_at(buf, off + 1) {
            Some(r) => Some(Datagram::Response(r)),
            None => None,
        }
    } else {
        None
    }
}

/// Decodes a payload that must be exactly one datagram encoding.
pub fn decode_datagram(buf: &Vec<u8>) -> (r: Option<Datagram>)
    ensures
        r == dec_dgram(buf@),
{
    proof {
        assert(buf@.subrange(0, buf.len() as int) =~= buf@);
    }
    dgram_at(buf, 0)
}

/// Reads a 16-byte frame header: the source id and the payload length.
pub fn decode_header(buf: &Vec<u8>) -> (r: Option<(u64, u64)>)
    ensures
        r == dec_header(buf@),
{
    if buf.len() < 16 {
        return None;
    }
    let src = read_be(buf, 0, 8);
    let len = read_be(buf, 8, 8);
    Some((src, len))
}

/// Decodes a buffer that must hold exactly one whole frame.
pub fn decode_frame(buf: &Vec<u8>) -> (r: Option<(u64, Datagram)>)
    ensures
        r == dec_frame(buf@),
{
    if buf.len() < 16 {
        return None;
    }
    let src = read_be(buf, 0, 8);
    let len = read_be(buf, 8, 8);
    let body = buf.len() - 16;
    if len != body as u64 {
        return None;
    }
    match dgram_at(buf, 16) {
        Some(d) => Some((src, d)),
        None => None,
    }
}

proof fn lemma_req_round_trip(r: Request)
    ensures
        dec_req(req_bytes(r)) == Some(r),
{
    lemma_pow256_vals();
    let s = req_bytes(r);
    match r {
        Request::Propose { value } => {
            lemma_le_bytes_len(value as nat, 4);
            assert(s.subrange(1, 5) =~= le_bytes(value as nat, 4));
            lemma_le_round_trip(value as nat, 4);
        },
        Request::Prepare { seq } => {
            lemma_ballot_round_trip(seq);
            assert(s.subrange(1, 25) =~= ballot_bytes(seq));
        },
        Request::Accept { seq, value } => {
            lemma_ballot_round_trip(seq);
            lemma_le_bytes_len(value as nat, 4);
            assert(s.subrange(1, 25) =~= ballot_bytes(seq));
            assert(s.subrange(25, 29) =~= le_bytes(value as nat, 4));
            lemma_le_round_trip(value as nat, 4);
        },
        Request::Learn { value } => {
            lemma_le_bytes_len(value as nat, 4);
            assert(s.subrange(1, 5) =~= le_bytes(value as nat, 4));
            lemma_le_round_trip(value as nat, 4);
        },
        Request::Query => {},
    }
}

proof fn lemma_resp_round_trip(r: Response)
    ensures
        dec_resp(resp_bytes(r)) == Some(r),
{
    lemma_pow256_vals();
    let s = resp_bytes(r);
    match r {
        Response::Prepare(None) => {},
        Response::Prepare(Some(ap)) => {
            lemma_ballot_round_trip(ap.seq);
            lemma_le_bytes_len(ap.val as nat, 4);
            assert(s.subrange(2, 26) =~= ballot_bytes(ap.seq));
            assert(s.subrange(26, 30) =~= le_bytes(ap.val as nat, 4));
            lemma_le_round_trip(ap.val as nat, 4);
        },
        Response::Accepted { seq } => {
            lemma_ballot_round_trip(seq);
            assert(s.subrange(1, 25) =~= ballot_bytes(seq));
        },
        Response::Query { val: None } => {},
        Response::Query { val: Some(v) } => {
            lemma_le_bytes_len(v as nat, 4);
            assert(s.subrange(2, 6) =~= le_bytes(v as nat, 4));
            lemma_le_round_trip(v as nat, 4);
        },
    }
}

/// Decoding an encoded payload returns the datagram unchanged.
pub proof fn lemma_dgram_round_trip(d: Datagram)
    ensures
        dec_dgram(dgram_bytes(d)) == Some(d),
{
    let s = dgram_bytes(d);
    match d {
        Datagram::Request(r) => {
            assert(s.drop_first() =~= req_bytes(r));
            lemma_req_round_trip(r);
        },
        Datagram::Response(r) => {
            assert(s.drop_first() =~= resp_bytes(r));
            lemma_resp_round_trip(r);
        },
    }
}

/// Decoding an encoded frame returns the source id and the datagram
/// unchanged: for every datagram `d` and every `src`,
/// `decode(encode_with_src(d, src))` yields `(src, d)`.
pub proof fn lemma_frame_round_trip(d: Datagram, src: u64)
    ensures
        dec_frame(frame_bytes(d, src)) == Some((src, d)),
{
    lemma_pow256_vals();
    let p = dgram_bytes(d);
    lemma_dgram_bytes_len(d);
    lemma_be_bytes_len(src as nat, 8);
    lemma_be_bytes_len(p.len(), 8);
    let s = frame_bytes(d, src);
    assert(s.subrange(0, 8) =~= be_bytes(src as nat, 8));
    assert(s.subrange(8, 16) =~= be_bytes(p.len(), 8));
    assert(s.subrange(16, s.len() as int) =~= p);
    lemma_be_round_trip(src as nat, 8);
    lemma_be_round_trip(p.len(), 8);
    lemma_dgram_round_trip(d);
}

} // verus!
