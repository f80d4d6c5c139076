//! Length-prefixed framing shared by every pipe pair in the system.
//!
//! Every message, in both directions, is one frame: a fixed 64-bit
//! little-endian length field giving the byte count of the payload, followed
//! by exactly that many payload bytes. The supervisor also relays worker
//! responses without looking inside them; [`RawFrame`] is the opaque framed
//! message used on that path, with its length field checked once when the
//! frame is reassembled from a header and a body.

use vstd::prelude::*;

verus! {

/// The width of the length field, in bytes.
pub const FRAME_HEADER_LEN: usize = 8;

/// The low `k` bytes of `n`, least significant first.
pub open spec fn le_bytes(n: u64, k: nat) -> Seq<u8>
    decreases k,
{
    if k == 0 {
        Seq::empty()
    } else {
        seq![(n % 256) as u8] + le_bytes(n / 256, (k - 1) as nat)
    }
}

/// The value of the `k` bytes of `b` starting at `i`, read as a
/// little-endian number.
pub open spec fn le_val(b: Seq<u8>, i: int, k: nat) -> nat
    decreases k,
{
    if k == 0 {
        0
    } else {
        (b[i] + 256 * le_val(b, i + 1, (k - 1) as nat)) as nat
    }
}

/// 256 to the power `k`.
pub open spec fn pow256(k: nat) -> nat
    decreases k,
{
    if k == 0 {
        1
    } else {
        256 * pow256((k - 1) as nat)
    }
}

pub proof fn lemma_le_bytes_len(n: u64, k: nat)
    ensures
        le_bytes(n, k).len() == k,
    decreases k,
{
    if k > 0 {
        lemma_le_bytes_len(n / 256, (k - 1) as nat);
    }
}

/// Reading back the bytes `le_bytes` wrote gives the value, wherever they
/// sit inside a larger sequence.
pub proof fn lemma_le_round_trip(n: u64, k: nat, b: Seq<u8>, i: int)
    requires
        n < pow256(k),
        0 <= i,
        i + k <= b.len(),
        b.subrange(i, i + k) == le_bytes(n, k),
    ensures
        le_val(b, i, k) == n,
    decreases k,
{
    if k > 0 {
        let km1 = (k - 1) as nat;
        lemma_le_bytes_len(n / 256, km1);
        assert(b[i] == le_bytes(n, k)[0]) by {
            assert(b.subrange(i, i + k)[0] == le_bytes(n, k)[0]);
        };
        assert(n / 256 < pow256(km1)) by {
            assert(pow256(k) == 256 * pow256(km1));
        };
        assert(b.subrange(i + 1, i + 1 + km1) == le_bytes(n / 256, km1)) by {
            assert forall|j: int| 0 <= j < km1 implies #[trigger] (b.subrange(
                i + 1,
                i + 1 + km1,
            )[j]) == le_bytes(n / 256, km1)[j] by {
                assert(b.subrange(i, i + k)[j + 1] == le_bytes(n, k)[j + 1]);
            }
            assert(b.subrange(i + 1, i + 1 + km1) =~= le_bytes(n / 256, km1));
        };
        lemma_le_round_trip(n / 256, km1, b, i + 1);
        assert((n % 256) + 256 * (n / 256) == n);
    }
}

/// A whole frame: the payload's length as a 64-bit little-endian field,
/// then the payload.
pub open spec fn frame_of(payload: Seq<u8>) -> Seq<u8> {
    le_bytes(payload.len() as u64, 8) + payload
}

/// What a well-formed frame looks like from the bytes alone: at least a
/// header, and a length field that counts exactly the bytes after it.
pub open spec fn frame_wf(b: Seq<u8>) -> bool {
    b.len() >= 8 && le_val(b, 0, 8) == b.len() - 8
}

/// The payload of a well-formed frame.
pub open spec fn frame_payload_of(b: Seq<u8>) -> Seq<u8> {
    b.subrange(8, b.len() as int)
}

pub proof fn lemma_frame_round_trip(payload: Seq<u8>)
    requires
        payload.len() < pow256(8),
    ensures
        frame_wf(frame_of(payload)),
        frame_payload_of(frame_of(payload)) == payload,
{
    assert(pow256(8) == 0x1_0000_0000_0000_0000) by {
        reveal_with_fuel(pow256, 9);
    };
    let b = frame_of(payload);
    lemma_le_bytes_len(payload.len() as u64, 8);
    assert(b.subrange(0, 8) =~= le_bytes(payload.len() as u64, 8));
    lemma_le_round_trip(payload.len() as u64, 8, b, 0);
    assert(frame_payload_of(b) =~= payload);
}

/// Executable encoder: wraps a payload in a frame.
pub fn frame_payload(payload: &Vec<u8>) -> (r: Vec<u8>)
    ensures
        r@ == frame_of(payload@),
{
    let n: u64 = payload.len() as u64;
    let mut r: Vec<u8> = Vec::new();
    let mut rest: u64 = n;
    let mut k: usize = 0;
    while k < 8
        invariant
            0 <= k <= 8,
            r@.len() == k,
            le_bytes(n, 8) == r@ + le_bytes(rest, (8 - k) as nat),
        decreases 8 - k,
    {
        let byte: u8 = (rest % 256) as u8;
        r.push(byte);
        rest = rest / 256;
        k = k + 1;
        proof {
            assert(le_bytes(n, 8) =~= r@ + le_bytes(rest, (8 - k) as nat));
        }
    }
    let mut body: Vec<u8> = Vec::new();
    let mut t: usize = 0;
    let plen: usize = payload.len();
    while t < plen
        invariant
            0 <= t <= plen,
            plen == payload@.len(),
            body@ == payload@.subrange(0, t as int),
        decreases plen - t,
    {
        body.push(payload[t]);
        assert(body@ =~= payload@.subrange(0, t + 1));
        t = t + 1;
    }
    assert(body@ =~= payload@);
    r.append(&mut body);
    proof {
        assert(le_bytes(n, 0) =~= Seq::<u8>::empty());
        assert(r@ =~= frame_of(payload@));
    }
    r
}

/// Executable reader for the length field of a frame header.
pub fn header_payload_len(header: &Vec<u8>) -> (r: u64)
    requires
        header@.len() == 8,
    ensures
        r == le_val(header@, 0, 8),
{
    let mut acc: u64 = 0;
    let mut j: usize = 8;
    while j > 0
        invariant
            0 <= j <= 8,
            header@.len() == 8,
            acc == le_val(header@, j as int, (8 - j) as nat),
            acc < pow256((8 - j) as nat),
        decreases j,
    {
        j = j - 1;
        let byte: u8 = header[j];
        proof {
            lemma_pow256_increases((8 - j) as nat, 8);
            assert(pow256(8) == 0x1_0000_0000_0000_0000) by {
                reveal_with_fuel(pow256, 9);
            };
            assert(pow256((8 - j) as nat) == 256 * pow256((8 - j - 1) as nat));
            assert(acc * 256 + 256 <= pow256((8 - j - 1) as nat) * 256) by (nonlinear_arith)
                requires
                    acc < pow256((8 - j - 1) as nat),
            ;
        }
        acc = acc * 256 + (byte as u64);
    }
    acc
}

/// `le_val` reads only the bytes it spans: sequences that agree there
/// give the same value.
proof fn lemma_le_val_agree(a: Seq<u8>, b: Seq<u8>, i: int, k: nat)
    requires
        0 <= i,
        i + k <= a.len(),
        i + k <= b.len(),
        forall|j: int| i <= j < i + k ==> a[j] == b[j],
    ensures
        le_val(a, i, k) == le_val(b, i, k),
    decreases k,
{
    if k > 0 {
        lemma_le_val_agree(a, b, i + 1, (k - 1) as nat);
    }
}

pub proof fn lemma_pow256_increases(a: nat, c: nat)
    requires
        a <= c,
    ensures
        pow256(a) <= pow256(c),
    decreases c,
{
    if a < c {
        lemma_pow256_increases(a, (c - 1) as nat);
        assert(pow256(c) == 256 * pow256((c - 1) as nat));
    }
}

/// One framed message kept opaque: the supervisor relays a worker's
/// response to the UI without decoding its payload, and this type carries
/// it whole, length prefix included.
pub struct RawFrame {
    bytes: Vec<u8>,
}

impl RawFrame {
    /// The raw bytes of the frame, header and payload together.
    pub closed spec fn view(&self) -> Seq<u8> {
        self.bytes@
    }

    /// Every `RawFrame` holds a well-formed frame.
    #[verifier::type_invariant]
    pub closed spec fn wf(&self) -> bool {
        frame_wf(self.bytes@)
    }

    /// Wraps a payload in a frame.
    pub fn from_payload(payload: &Vec<u8>) -> (r: RawFrame)
        ensures
            r@ == frame_of(payload@),
    {
        let n: usize = payload.len();
        proof {
            assert(pow256(8) == 0x1_0000_0000_0000_0000) by {
                reveal_with_fuel(pow256, 9);
            };
            assert(payload@.len() < pow256(8));
            lemma_frame_round_trip(payload@);
        }
        RawFrame { bytes: frame_payload(payload) }
    }

    /// Reassembles a frame from a header and a body read separately off a
    /// pipe, checking that the length field counts exactly the body.
    pub fn from_parts(header: Vec<u8>, body: Vec<u8>) -> (r: Option<RawFrame>)
        ensures
            r is Some <==> header@.len() == 8 && le_val(header@, 0, 8) == body@.len(),
            r is Some ==> r.unwrap()@ == header@ + body@,
    {
        if header.len() != 8 {
            return None;
        }
        let n: u64 = header_payload_len(&header);
        if (body.len() as u64) != n {
            proof {
                assert(pow256(8) == 0x1_0000_0000_0000_0000) by {
                    reveal_with_fuel(pow256, 9);
                };
            }
            return None;
        }
        let mut bytes = header;
        let mut rest = body;
        bytes.append(&mut rest);
        proof {
            lemma_le_val_agree(bytes@, header@, 0, 8);
            assert(frame_wf(bytes@));
        }
        Some(RawFrame { bytes })
    }

    /// Hands the whole frame back as bytes, ready to be written to a pipe.
    pub fn into_bytes(self) -> (r: Vec<u8>)
        ensures
            r@ == self@,
            frame_wf(r@),
    {
        proof {
            use_type_invariant(&self);
        }
        self.bytes
    }

    /// The payload carried by the frame.
    pub open spec fn spec_payload(&self) -> Seq<u8> {
        frame_payload_of(self@)
    }
}

} // verus!
