//! Primitive field encodings of the wire protocol's text payloads.
//!
//! Every payload is UTF-8 text built from a few primitive fields: fixed-width
//! lowercase hexadecimal numbers, a one-byte boolean, and length-prefixed raw
//! string bytes. Each primitive has a specification-level encoder and parser,
//! an executable counterpart proved against them, and a round-trip lemma.

use vstd::prelude::*;
use vstd::utf8::*;

verus! {

/// Lowercase hexadecimal digit for a nibble value below 16.
pub open spec fn hex_digit(n: u8) -> u8 {
    if n < 10 {
        (48 + n) as u8
    } else {
        (87 + n) as u8
    }
}

/// Nibble value of an ASCII hexadecimal digit, if it is one
/// (decimal digits and lowercase letters only).
pub open spec fn from_hex_digit(b: u8) -> Option<u8> {
    if 48 <= b && b <= 57 {
        Some((b - 48) as u8)
    } else if 97 <= b && b <= 102 {
        Some((b - 87) as u8)
    } else {
        None
    }
}

pub proof fn lemma_hex_digit_round_trip(n: u8)
    requires
        n < 16,
    ensures
        from_hex_digit(hex_digit(n)) == Some(n),
{
}

/// 16 to the power `k`: the number of values `k` hexadecimal digits span.
pub open spec fn pow16(k: nat) -> nat
    decreases k,
{
    if k == 0 {
        1
    } else {
        16 * pow16((k - 1) as nat)
    }
}

/// The low `k` hexadecimal digits of `n`, most significant first.
pub open spec fn enc_hex(n: u64, k: nat) -> Seq<u8>
    decreases k,
{
    if k == 0 {
        Seq::empty()
    } else {
        enc_hex(n / 16, (k - 1) as nat) + seq![hex_digit((n % 16) as u8)]
    }
}

/// Value of the `k` hexadecimal digits of `b` starting at `i`, read left to
/// right; `None` if any byte is not a lowercase hexadecimal digit.
pub open spec fn hex_val(b: Seq<u8>, i: int, k: nat) -> Option<u64>
    decreases k,
{
    if k == 0 {
        Some(0)
    } else {
        match hex_val(b, i, (k - 1) as nat) {
            Some(v) => match from_hex_digit(b[i + k - 1]) {
                Some(d) => Some((v * 16 + d) as u64),
                None => None,
            },
            None => None,
        }
    }
}

pub proof fn lemma_enc_hex_len(n: u64, k: nat)
    ensures
        enc_hex(n, k).len() == k,
    decreases k,
{
    if k > 0 {
        lemma_enc_hex_len(n / 16, (k - 1) as nat);
    }
}

/// Any value a hexadecimal field parses to is below `pow16` of its width.
pub proof fn lemma_hex_val_bound(b: Seq<u8>, i: int, k: nat)
    requires
        hex_val(b, i, k) is Some,
    ensures
        hex_val(b, i, k).unwrap() < pow16(k),
    decreases k,
{
    if k > 0 {
        lemma_hex_val_bound(b, i, (k - 1) as nat);
    }
}

/// Parsing the digits that `enc_hex` wrote gives the value back, wherever
/// they sit inside a larger byte sequence.
pub proof fn lemma_hex_round_trip(n: u64, k: nat, b: Seq<u8>, i: int)
    requires
        n < pow16(k),
        0 <= i,
        i + k <= b.len(),
        b.subrange(i, i + k) == enc_hex(n, k),
    ensures
        hex_val(b, i, k) == Some(n),
    decreases k,
{
    if k > 0 {
        let km1 = (k - 1) as nat;
        lemma_enc_hex_len(n / 16, km1);
        assert(n / 16 < pow16(km1)) by {
            assert(pow16(k) == 16 * pow16(km1));
            assert(n < 16 * pow16(km1));
        };
        assert(b.subrange(i, i + km1) == enc_hex(n / 16, km1)) by {
            assert forall|j: int| 0 <= j < km1 implies #[trigger] (b.subrange(i, i + km1)[j])
                == enc_hex(n / 16, km1)[j] by {
                assert(b.subrange(i, i + k)[j] == enc_hex(n, k)[j]);
            }
            assert(b.subrange(i, i + km1) =~= enc_hex(n / 16, km1));
        };
        lemma_hex_round_trip(n / 16, km1, b, i);
        assert(b[i + k - 1] == enc_hex(n, k)[k - 1]) by {
            assert(b.subrange(i, i + k)[k - 1] == enc_hex(n, k)[k - 1]);
        };
        assert(enc_hex(n, k)[k - 1] == hex_digit((n % 16) as u8));
        lemma_hex_digit_round_trip((n % 16) as u8);
        assert((n / 16) * 16 + (n % 16) == n) by (nonlinear_arith);
    }
}

/// Executable encoder for the low `k` hexadecimal digits of `n`.
pub fn enc_hex_exec(n: u64, k: usize) -> (r: Vec<u8>)
    ensures
        r@ == enc_hex(n, k as nat),
    decreases k,
{
    if k == 0 {
        Vec::new()
    } else {
        let mut r = enc_hex_exec(n / 16, k - 1);
        let nib: u8 = (n % 16) as u8;
        let d: u8 = if nib < 10 {
            48 + nib
        } else {
            87 + nib
        };
        r.push(d);
        proof {
            assert(r@ =~= enc_hex(n, k as nat));
        }
        r
    }
}

/// Executable parser for `k` hexadecimal digits of `b` starting at `i`.
pub fn hex_val_exec(b: &Vec<u8>, i: usize, k: usize) -> (r: Option<u64>)
    requires
        i + k <= b@.len(),
        k <= 16,
    ensures
        r == hex_val(b@, i as int, k as nat),
{
    let len: usize = b.len();
    let mut acc: u64 = 0;
    let mut j: usize = 0;
    while j < k
        invariant
            0 <= j <= k,
            k <= 16,
            len == b@.len(),
            i + k <= b@.len(),
            hex_val(b@, i as int, j as nat) == Some(acc),
            acc < pow16(j as nat),
        decreases k - j,
    {
        let byte: u8 = b[i + j];
        let d: u8 = if 48 <= byte && byte <= 57 {
            byte - 48
        } else if 97 <= byte && byte <= 102 {
            byte - 87
        } else {
            proof {
                lemma_hex_val_none(b@, i as int, (j + 1) as nat, k as nat);
            }
            return None;
        };
        proof {
            assert(pow16(16) == 0x1_0000_0000_0000_0000) by {
                reveal_with_fuel(pow16, 17);
            };
            lemma_pow16_increases((j + 1) as nat, 16);
            assert(acc * 16 + d < pow16((j + 1) as nat)) by {
                assert(pow16((j + 1) as nat) == 16 * pow16(j as nat));
                assert(acc * 16 + 16 <= pow16(j as nat) * 16) by (nonlinear_arith)
                    requires
                        acc < pow16(j as nat),
                        d < 16,
                ;
            };
        }
        acc = acc * 16 + (d as u64);
        j = j + 1;
    }
    Some(acc)
}

/// Once a digit fails to parse, every wider field containing it fails too.
proof fn lemma_hex_val_none(b: Seq<u8>, i: int, j: nat, k: nat)
    requires
        j <= k,
        hex_val(b, i, j) is None,
    ensures
        hex_val(b, i, k) is None,
    decreases k,
{
    if j < k {
        lemma_hex_val_none(b, i, j, (k - 1) as nat);
    }
}

proof fn lemma_pow16_increases(a: nat, c: nat)
    requires
        a <= c,
    ensures
        pow16(a) <= pow16(c),
    decreases c,
{
    if a < c {
        lemma_pow16_increases(a, (c - 1) as nat);
        assert(pow16(c) == 16 * pow16((c - 1) as nat));
    }
}

// ---------------------------------------------------------------------------
// Fixed-width number fields.
// ---------------------------------------------------------------------------
/// A `u32` field: eight hexadecimal digits.
pub open spec fn enc_u32(n: u32) -> Seq<u8> {
    enc_hex(n as u64, 8)
}

/// A `u64` field: sixteen hexadecimal digits.
pub open spec fn enc_u64(n: u64) -> Seq<u8> {
    enc_hex(n, 16)
}

/// A `u8` field: two hexadecimal digits.
pub open spec fn enc_u8(n: u8) -> Seq<u8> {
    enc_hex(n as u64, 2)
}

/// The `u32` bit pattern that carries an `i32` on the wire
/// (two's complement).
pub open spec fn i32_bits(v: i32) -> u32 {
    if v >= 0 {
        v as u32
    } else {
        (v + 0x1_0000_0000) as u32
    }
}

/// The `i32` a `u32` bit pattern stands for (two's complement).
pub open spec fn i32_of_bits(bits: u32) -> i32 {
    if bits < 0x8000_0000 {
        bits as i32
    } else {
        (bits - 0x1_0000_0000) as i32
    }
}

pub proof fn lemma_i32_bits_round_trip(v: i32)
    ensures
        i32_of_bits(i32_bits(v)) == v,
{
}

/// An `i32` field: its two's complement bit pattern as a `u32` field.
pub open spec fn enc_i32(v: i32) -> Seq<u8> {
    enc_u32(i32_bits(v))
}

/// A `bool` field: the ASCII byte `0` or `1`.
pub open spec fn enc_bool(v: bool) -> Seq<u8> {
    if v {
        seq![49u8]
    } else {
        seq![48u8]
    }
}

/// Parses a `bool` field at `i`.
pub open spec fn p_bool(b: Seq<u8>, i: int) -> Option<(bool, int)> {
    if i + 1 <= b.len() {
        if b[i] == 48 {
            Some((false, i + 1))
        } else if b[i] == 49 {
            Some((true, i + 1))
        } else {
            None
        }
    } else {
        None
    }
}

/// Parses a `u8` field at `i`.
pub open spec fn p_u8(b: Seq<u8>, i: int) -> Option<(u8, int)> {
    if i + 2 <= b.len() {
        match hex_val(b, i, 2) {
            Some(v) => Some((v as u8, i + 2)),
            None => None,
        }
    } else {
        None
    }
}

/// Parses a `u32` field at `i`.
pub open spec fn p_u32(b: Seq<u8>, i: int) -> Option<(u32, int)> {
    if i + 8 <= b.len() {
        match hex_val(b, i, 8) {
            Some(v) => Some((v as u32, i + 8)),
            None => None,
        }
    } else {
        None
    }
}

/// Parses a `u64` field at `i`.
pub open spec fn p_u64(b: Seq<u8>, i: int) -> Option<(u64, int)> {
    if i + 16 <= b.len() {
        match hex_val(b, i, 16) {
            Some(v) => Some((v, i + 16)),
            None => None,
        }
    } else {
        None
    }
}

/// Parses an `i32` field at `i`.
pub open spec fn p_i32(b: Seq<u8>, i: int) -> Option<(i32, int)> {
    match p_u32(b, i) {
        Some((bits, j)) => Some((i32_of_bits(bits), j)),
        None => None,
    }
}

// ---------------------------------------------------------------------------
// String fields: a u64 byte length, then that many raw UTF-8 bytes.
// ---------------------------------------------------------------------------
/// A string field: the UTF-8 byte length as a `u64` field, then the bytes.
pub open spec fn enc_str(s: Seq<char>) -> Seq<u8> {
    enc_u64(encode_utf8(s).len() as u64) + encode_utf8(s)
}

/// Parses a string field at `i`: length, raw bytes, UTF-8 decoding.
/// Fails if the bytes are not valid UTF-8.
pub open spec fn p_str(b: Seq<u8>, i: int) -> Option<(Seq<char>, int)> {
    match p_u64(b, i) {
        Some((n, j)) => {
            if j + n <= b.len() {
                let raw = b.subrange(j, j + n);
                if valid_utf8(raw) {
                    Some((decode_utf8(raw), j + n))
                } else {
                    None
                }
            } else {
                None
            }
        },
        None => None,
    }
}

/// A string whose encoded length fits the wire's length field. Every string
/// an executable program holds satisfies this.
pub open spec fn str_len_ok(s: Seq<char>) -> bool {
    encode_utf8(s).len() < pow16(16)
}

// ---------------------------------------------------------------------------
// Round-trip lemmas for the fixed-width and string fields, stated for a
// field sitting at position `i` of a larger sequence.
// ---------------------------------------------------------------------------
pub proof fn lemma_p_u32_round_trip(n: u32, b: Seq<u8>, i: int)
    requires
        0 <= i,
        i + 8 <= b.len(),
        b.subrange(i, i + 8) == enc_u32(n),
    ensures
        p_u32(b, i) == Some((n, i + 8)),
{
    assert((n as u64) < pow16(8)) by {
        reveal_with_fuel(pow16, 9);
    };
    lemma_hex_round_trip(n as u64, 8, b, i);
}

pub proof fn lemma_p_u64_round_trip(n: u64, b: Seq<u8>, i: int)
    requires
        0 <= i,
        i + 16 <= b.len(),
        b.subrange(i, i + 16) == enc_u64(n),
    ensures
        p_u64(b, i) == Some((n, i + 16)),
{
    assert(pow16(16) == 0x1_0000_0000_0000_0000) by {
        reveal_with_fuel(pow16, 17);
    };
    lemma_hex_round_trip(n, 16, b, i);
}

pub proof fn lemma_p_u8_round_trip(n: u8, b: Seq<u8>, i: int)
    requires
        0 <= i,
        i + 2 <= b.len(),
        b.subrange(i, i + 2) == enc_u8(n),
    ensures
        p_u8(b, i) == Some((n, i + 2)),
{
    assert((n as u64) < pow16(2)) by {
        reveal_with_fuel(pow16, 3);
    };
    lemma_hex_round_trip(n as u64, 2, b, i);
}

pub proof fn lemma_p_i32_round_trip(v: i32, b: Seq<u8>, i: int)
    requires
        0 <= i,
        i + 8 <= b.len(),
        b.subrange(i, i + 8) == enc_i32(v),
    ensures
        p_i32(b, i) == Some((v, i + 8)),
{
    lemma_p_u32_round_trip(i32_bits(v), b, i);
    lemma_i32_bits_round_trip(v);
}

pub proof fn lemma_p_bool_round_trip(v: bool, b: Seq<u8>, i: int)
    requires
        0 <= i,
        i + 1 <= b.len(),
        b.subrange(i, i + 1) == enc_bool(v),
    ensures
        p_bool(b, i) == Some((v, i + 1)),
{
    assert(b[i] == enc_bool(v)[0]) by {
        assert(b.subrange(i, i + 1)[0] == enc_bool(v)[0]);
    };
}

pub proof fn lemma_p_str_round_trip(s: Seq<char>, b: Seq<u8>, i: int)
    requires
        str_len_ok(s),
        0 <= i,
        i + enc_str(s).len() <= b.len(),
        b.subrange(i, i + enc_str(s).len()) == enc_str(s),
    ensures
        p_str(b, i) == Some((s, i + enc_str(s).len())),
{
    broadcast use encode_utf8_valid_utf8, encode_utf8_decode_utf8;

    let raw = encode_utf8(s);
    assert(raw.len() < 0x1_0000_0000_0000_0000) by {
        reveal_with_fuel(pow16, 17);
    };
    let n = raw.len() as u64;
    lemma_enc_hex_len(n, 16);
    assert(enc_str(s).len() == 16 + raw.len());
    assert(b.subrange(i, i + 16) == enc_u64(n)) by {
        assert forall|j: int| 0 <= j < 16 implies #[trigger] (b.subrange(i, i + 16)[j]) == enc_u64(n)[j] by {
            assert(b.subrange(i, i + enc_str(s).len())[j] == enc_str(s)[j]);
        }
        assert(b.subrange(i, i + 16) =~= enc_u64(n));
    };
    lemma_p_u64_round_trip(n, b, i);
    assert(b.subrange(i + 16, i + 16 + n) == raw) by {
        assert forall|j: int| 0 <= j < n implies #[trigger] (b.subrange(i + 16, i + 16 + n)[j]) == raw[j] by {
            assert(b.subrange(i, i + enc_str(s).len())[16 + j] == enc_str(s)[16 + j]);
        }
        assert(b.subrange(i + 16, i + 16 + n) =~= raw);
    };
    assert(valid_utf8(raw));
    assert(decode_utf8(raw) == s);
}

// ---------------------------------------------------------------------------
// Executable encoders, appending one field to a payload under construction,
// and executable parsers, each proved against the specification parser.
// ---------------------------------------------------------------------------
/// Appends a `u32` field.
pub fn push_u32(out: &mut Vec<u8>, n: u32)
    ensures
        final(out)@ == old(out)@ + enc_u32(n),
{
    let mut field = enc_hex_exec(n as u64, 8);
    out.append(&mut field);
}

/// Appends a `u64` field.
pub fn push_u64(out: &mut Vec<u8>, n: u64)
    ensures
        final(out)@ == old(out)@ + enc_u64(n),
{
    let mut field = enc_hex_exec(n, 16);
    out.append(&mut field);
}

/// Appends a `u8` field.
pub fn push_u8(out: &mut Vec<u8>, n: u8)
    ensures
        final(out)@ == old(out)@ + enc_u8(n),
{
    let mut field = enc_hex_exec(n as u64, 2);
    out.append(&mut field);
}

/// Appends an `i32` field.
pub fn push_i32(out: &mut Vec<u8>, v: i32)
    ensures
        final(out)@ == old(out)@ + enc_i32(v),
{
    let bits: u32 = if v >= 0 {
        v as u32
    } else {
        ((v as i64) + 0x1_0000_0000) as u32
    };
    assert(bits == i32_bits(v));
    push_u32(out, bits);
}

/// Appends a `bool` field.
pub fn push_bool(out: &mut Vec<u8>, v: bool)
    ensures
        final(out)@ == old(out)@ + enc_bool(v),
{
    if v {
        out.push(49);
    } else {
        out.push(48);
    }
    assert(out@ =~= old(out)@ + enc_bool(v));
}

/// Appends a string field: length prefix, then the string's UTF-8 bytes.
pub fn push_str_field(out: &mut Vec<u8>, s: &str)
    ensures
        final(out)@ == old(out)@ + enc_str(s@),
        str_len_ok(s@),
{
    let mut raw = s.as_bytes_vec();
    proof {
        reveal_with_fuel(pow16, 17);
    }
    push_u64(out, raw.len() as u64);
    out.append(&mut raw);
    assert(out@ =~= old(out)@ + enc_str(s@));
}

/// Reads a `u32` field.
pub fn read_u32(b: &Vec<u8>, i: usize) -> (r: Option<(u32, usize)>)
    requires
        i <= b@.len(),
    ensures
        r is Some ==> p_u32(b@, i as int) == Some((r.unwrap().0, r.unwrap().1 as int)),
        r is None ==> p_u32(b@, i as int) is None,
        r is Some ==> i < r.unwrap().1 <= b@.len(),
{
    if b.len() - i < 8 {
        return None;
    }
    match hex_val_exec(b, i, 8) {
        Some(v) => {
            proof {
                lemma_hex_val_bound(b@, i as int, 8);
                reveal_with_fuel(pow16, 9);
            }
            Some((v as u32, i + 8))
        },
        None => None,
    }
}

/// Reads a `u64` field.
pub fn read_u64(b: &Vec<u8>, i: usize) -> (r: Option<(u64, usize)>)
    requires
        i <= b@.len(),
    ensures
        r is Some ==> p_u64(b@, i as int) == Some((r.unwrap().0, r.unwrap().1 as int)),
        r is None ==> p_u64(b@, i as int) is None,
        r is Some ==> i < r.unwrap().1 <= b@.len(),
{
    if b.len() - i < 16 {
        return None;
    }
    match hex_val_exec(b, i, 16) {
        Some(v) => Some((v, i + 16)),
        None => None,
    }
}

/// Reads a `u8` field.
pub fn read_u8(b: &Vec<u8>, i: usize) -> (r: Option<(u8, usize)>)
    requires
        i <= b@.len(),
    ensures
        r is Some ==> p_u8(b@, i as int) == Some((r.unwrap().0, r.unwrap().1 as int)),
        r is None ==> p_u8(b@, i as int) is None,
        r is Some ==> i < r.unwrap().1 <= b@.len(),
{
    if b.len() - i < 2 {
        return None;
    }
    match hex_val_exec(b, i, 2) {
        Some(v) => {
            proof {
                lemma_hex_val_bound(b@, i as int, 2);
                reveal_with_fuel(pow16, 3);
            }
            Some((v as u8, i + 2))
        },
        None => None,
    }
}

/// Reads an `i32` field.
pub fn read_i32(b: &Vec<u8>, i: usize) -> (r: Option<(i32, usize)>)
    requires
        i <= b@.len(),
    ensures
        r is Some ==> p_i32(b@, i as int) == Some((r.unwrap().0, r.unwrap().1 as int)),
        r is None ==> p_i32(b@, i as int) is None,
        r is Some ==> i < r.unwrap().1 <= b@.len(),
{
    match read_u32(b, i) {
        Some((bits, j)) => {
            let v: i32 = if bits < 0x8000_0000 {
                bits as i32
            } else {
                ((bits as i64) - 0x1_0000_0000) as i32
            };
            assert(v == i32_of_bits(bits));
            Some((v, j))
        },
        None => None,
    }
}

/// Reads a `bool` field.
pub fn read_bool(b: &Vec<u8>, i: usize) -> (r: Option<(bool, usize)>)
    requires
        i <= b@.len(),
    ensures
        r is Some ==> p_bool(b@, i as int) == Some((r.unwrap().0, r.unwrap().1 as int)),
        r is None ==> p_bool(b@, i as int) is None,
        r is Some ==> i < r.unwrap().1 <= b@.len(),
{
    if b.len() - i < 1 {
        return None;
    }
    let byte: u8 = b[i];
    if byte == 48 {
        Some((false, i + 1))
    } else if byte == 49 {
        Some((true, i + 1))
    } else {
        None
    }
}

/// Relies on `String::from_utf8`: it succeeds exactly on valid UTF-8 input
/// and returns its decoding.
#[verifier::external_body]
pub(crate) fn string_from_utf8(bytes: Vec<u8>) -> (r: Option<String>)
    ensures
        r is Some <==> valid_utf8(bytes@),
        r is Some ==> r.unwrap()@ == decode_utf8(bytes@),
{
    String::from_utf8(bytes).ok()
}

/// Reads a string field: length, raw bytes, UTF-8 decoding.
pub fn read_str_field(b: &Vec<u8>, i: usize) -> (r: Option<(String, usize)>)
    requires
        i <= b@.len(),
    ensures
        r is Some ==> p_str(b@, i as int) == Some((r.unwrap().0@, r.unwrap().1 as int)),
        r is None ==> p_str(b@, i as int) is None,
        r is Some ==> i < r.unwrap().1 <= b@.len(),
{
    match read_u64(b, i) {
        Some((n, j)) => {
            let blen: usize = b.len();
            if (blen - j) as u64 >= n {
                let n_usize: usize = n as usize;
                let mut raw: Vec<u8> = Vec::new();
                let mut t: usize = 0;
                while t < n_usize
                    invariant
                        0 <= t <= n_usize,
                        blen == b@.len(),
                        j + n_usize <= blen,
                        raw@ == b@.subrange(j as int, j + t),
                    decreases n_usize - t,
                {
                    raw.push(b[j + t]);
                    assert(raw@ =~= b@.subrange(j as int, j + t + 1));
                    t = t + 1;
                }
                assert(raw@ == b@.subrange(j as int, j + n));
                match string_from_utf8(raw) {
                    Some(s) => Some((s, j + n_usize)),
                    None => None,
                }
            } else {
                None
            }
        },
        None => None,
    }
}

// ---------------------------------------------------------------------------
// Canonicity: a parsed field's bytes are exactly what its encoder writes.
// The fields are fixed-width or length-prefixed, so the value read pins
// the bytes read.
// ---------------------------------------------------------------------------
proof fn lemma_hex_canonical(b: Seq<u8>, i: int, k: nat)
    requires
        0 <= i,
        k <= 16,
        i + k <= b.len(),
        hex_val(b, i, k) is Some,
    ensures
        b.subrange(i, i + k) == enc_hex(hex_val(b, i, k).unwrap(), k),
    decreases k,
{
    if k > 0 {
        let km1 = (k - 1) as nat;
        lemma_hex_canonical(b, i, km1);
        let v = hex_val(b, i, k).unwrap();
        let vp = hex_val(b, i, km1).unwrap();
        let d = from_hex_digit(b[i + k - 1]).unwrap();
        lemma_hex_val_bound(b, i, k);
        lemma_hex_val_bound(b, i, km1);
        lemma_pow16_increases(k, 16);
        assert(pow16(16) == 0x1_0000_0000_0000_0000) by {
            reveal_with_fuel(pow16, 17);
        };
        assert(vp * 16 + d < pow16(k)) by (nonlinear_arith)
            requires
                vp < pow16(km1),
                0 <= d < 16,
                pow16(k) == 16 * pow16(km1),
        ;
        assert(v == vp * 16 + d);
        assert(v / 16 == vp && v % 16 == d) by (nonlinear_arith)
            requires
                v == vp * 16 + d,
                0 <= d < 16,
                vp >= 0,
        ;
        assert(from_hex_digit(b[i + k - 1]) == Some(d));
        assert(b[i + k - 1] == hex_digit(d)) by {
            let raw = b[i + k - 1];
            if 48 <= raw && raw <= 57 {
            } else {
            }
        };
        lemma_enc_hex_len(v / 16, km1);
        assert(b.subrange(i, i + k) =~= enc_hex(v, k));
    } else {
        assert(b.subrange(i, i + k) =~= enc_hex(0, 0));
    }
}

pub proof fn lemma_p_u32_canonical(b: Seq<u8>, i: int)
    requires
        0 <= i,
        p_u32(b, i) is Some,
    ensures
        b.subrange(i, i + 8) == enc_u32(p_u32(b, i).unwrap().0),
        p_u32(b, i).unwrap().1 == i + 8,
{
    lemma_hex_canonical(b, i, 8);
    lemma_hex_val_bound(b, i, 8);
    assert(pow16(8) == 0x1_0000_0000) by {
        reveal_with_fuel(pow16, 9);
    };
}

pub proof fn lemma_p_u64_canonical(b: Seq<u8>, i: int)
    requires
        0 <= i,
        p_u64(b, i) is Some,
    ensures
        b.subrange(i, i + 16) == enc_u64(p_u64(b, i).unwrap().0),
        p_u64(b, i).unwrap().1 == i + 16,
{
    lemma_hex_canonical(b, i, 16);
}

pub proof fn lemma_p_u8_canonical(b: Seq<u8>, i: int)
    requires
        0 <= i,
        p_u8(b, i) is Some,
    ensures
        b.subrange(i, i + 2) == enc_u8(p_u8(b, i).unwrap().0),
        p_u8(b, i).unwrap().1 == i + 2,
{
    lemma_hex_canonical(b, i, 2);
    lemma_hex_val_bound(b, i, 2);
    assert(pow16(2) == 0x100) by {
        reveal_with_fuel(pow16, 3);
    };
}

pub proof fn lemma_p_i32_canonical(b: Seq<u8>, i: int)
    requires
        0 <= i,
        p_i32(b, i) is Some,
    ensures
        b.subrange(i, i + 8) == enc_i32(p_i32(b, i).unwrap().0),
        p_i32(b, i).unwrap().1 == i + 8,
{
    lemma_p_u32_canonical(b, i);
    let bits = p_u32(b, i).unwrap().0;
    assert(i32_bits(i32_of_bits(bits)) == bits);
}

pub proof fn lemma_p_bool_canonical(b: Seq<u8>, i: int)
    requires
        0 <= i,
        p_bool(b, i) is Some,
    ensures
        b.subrange(i, i + 1) == enc_bool(p_bool(b, i).unwrap().0),
        p_bool(b, i).unwrap().1 == i + 1,
{
    assert(b.subrange(i, i + 1) =~= enc_bool(p_bool(b, i).unwrap().0));
}

pub proof fn lemma_p_str_canonical(b: Seq<u8>, i: int)
    requires
        0 <= i,
        p_str(b, i) is Some,
    ensures
        b.subrange(i, p_str(b, i).unwrap().1) == enc_str(p_str(b, i).unwrap().0),
        i < p_str(b, i).unwrap().1 <= b.len(),
{
    broadcast use vstd::utf8::decode_utf8_encode_utf8;

    let n = p_u64(b, i).unwrap().0;
    let j = i + 16;
    lemma_p_u64_canonical(b, i);
    let raw = b.subrange(j, j + n);
    assert(valid_utf8(raw));
    let s = decode_utf8(raw);
    assert(encode_utf8(s) == raw);
    lemma_enc_hex_len(n, 16);
    assert(b.subrange(i, j + n) =~= enc_u64(n) + raw) by {
        assert forall|t: int| 0 <= t < 16 + n implies #[trigger] (b.subrange(i, j + n)[t]) == (
        enc_u64(n) + raw)[t] by {
            if t < 16 {
                assert(b.subrange(i, j)[t] == enc_u64(n)[t]);
            } else {
                assert(raw[t - 16] == b[j + (t - 16)]);
            }
        }
    };
}

} // verus!
