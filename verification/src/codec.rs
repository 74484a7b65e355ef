//! Fixed-rule binary codec for storable values.
//!
//! Every integer is eight bytes, little-endian; composite records encode
//! their fields in declared order with statically known widths. Encoding is
//! a pure function of the logical value, so independent nodes produce
//! byte-identical output for identical values, and decoding is the exact
//! inverse of encoding.

use vstd::prelude::*;

verus! {

/// Errors from decoding stored bytes back into a typed value.
#[derive(Clone, Copy, Debug, PartialEq, Eq, Structural)]
pub enum DecodeError {
    /// Fewer bytes were present than the type requires.
    Truncated,
    /// The bytes do not correspond to any valid encoding of the type.
    Malformed,
}

/// The little-endian byte image of a 64-bit integer: the single fixed
/// byte order used for every integer in the system.
pub open spec fn u64_le_bytes(x: u64) -> Seq<u8> {
    seq![
        (x & 0xff) as u8,
        ((x >> 8) & 0xff) as u8,
        ((x >> 16) & 0xff) as u8,
        ((x >> 24) & 0xff) as u8,
        ((x >> 32) & 0xff) as u8,
        ((x >> 40) & 0xff) as u8,
        ((x >> 48) & 0xff) as u8,
        ((x >> 56) & 0xff) as u8,
    ]
}

/// The integer read back from eight little-endian bytes.
pub open spec fn u64_from_le_bytes(s: Seq<u8>) -> u64
    recommends
        s.len() == 8,
{
    ((s[0] as u64) | ((s[1] as u64) << 8) | ((s[2] as u64) << 16) | ((s[3] as u64) << 24)
        | ((s[4] as u64) << 32) | ((s[5] as u64) << 40) | ((s[6] as u64) << 48)
        | ((s[7] as u64) << 56)) as u64
}

/// Reading the byte image back yields the integer it came from.
pub proof fn lemma_u64_le_round_trip(x: u64)
    ensures
        u64_from_le_bytes(u64_le_bytes(x)) == x,
{
    assert((((x & 0xff) as u8 as u64) | ((((x >> 8) & 0xff) as u8 as u64) << 8)
        | ((((x >> 16) & 0xff) as u8 as u64) << 16) | ((((x >> 24) & 0xff) as u8 as u64) << 24)
        | ((((x >> 32) & 0xff) as u8 as u64) << 32) | ((((x >> 40) & 0xff) as u8 as u64) << 40)
        | ((((x >> 48) & 0xff) as u8 as u64) << 48) | ((((x >> 56) & 0xff) as u8 as u64) << 56))
        == x) by (bit_vector);
}

/// Any eight bytes are the byte image of the integer they read back as.
pub proof fn lemma_u64_le_image(s: Seq<u8>)
    requires
        s.len() == 8,
    ensures
        u64_le_bytes(u64_from_le_bytes(s)) == s,
{
    let b0 = s[0];
    let b1 = s[1];
    let b2 = s[2];
    let b3 = s[3];
    let b4 = s[4];
    let b5 = s[5];
    let b6 = s[6];
    let b7 = s[7];
    let x = u64_from_le_bytes(s);
    assert(x == (((b0 as u64) | ((b1 as u64) << 8) | ((b2 as u64) << 16) | ((b3 as u64) << 24)
        | ((b4 as u64) << 32) | ((b5 as u64) << 40) | ((b6 as u64) << 48) | ((b7 as u64) << 56))
        as u64));
    let y = (((b0 as u64) | ((b1 as u64) << 8) | ((b2 as u64) << 16) | ((b3 as u64) << 24)
        | ((b4 as u64) << 32) | ((b5 as u64) << 40) | ((b6 as u64) << 48) | ((b7 as u64) << 56))
        as u64);
    assert((y & 0xff) as u8 == b0 && ((y >> 8) & 0xff) as u8 == b1 && ((y >> 16) & 0xff) as u8
        == b2 && ((y >> 24) & 0xff) as u8 == b3 && ((y >> 32) & 0xff) as u8 == b4 && ((y >> 40)
        & 0xff) as u8 == b5 && ((y >> 48) & 0xff) as u8 == b6 && ((y >> 56) & 0xff) as u8 == b7)
        by (bit_vector)
        requires
            y == (((b0 as u64) | ((b1 as u64) << 8) | ((b2 as u64) << 16) | ((b3 as u64) << 24)
                | ((b4 as u64) << 32) | ((b5 as u64) << 40) | ((b6 as u64) << 48) | ((b7
                as u64) << 56)) as u64),
    ;
    assert(u64_le_bytes(x) =~= s);
}

/// Relies on borsh's u64 serialization: eight bytes, little-endian.
/// Serializing an integer into a fresh vector cannot fail.
#[verifier::external_body]
fn borsh_encode_u64(x: u64) -> (r: Vec<u8>)
    ensures
        r@ == u64_le_bytes(x),
{
    borsh::to_vec(&x).expect("writing to a vector cannot fail")
}

/// Relies on borsh's u64 deserialization: succeeds exactly on eight bytes,
/// read little-endian; trailing or missing bytes are an error.
#[verifier::external_body]
fn borsh_decode_u64(bytes: &[u8]) -> (r: Option<u64>)
    ensures
        bytes@.len() == 8 ==> r == Some(u64_from_le_bytes(bytes@)),
        bytes@.len() != 8 ==> r is None,
{
    borsh::from_slice::<u64>(bytes).ok()
}

/// Encode a 64-bit integer: its eight little-endian bytes.
pub fn encode_u64(x: u64) -> (r: Vec<u8>)
    ensures
        r@ == u64_le_bytes(x),
{
    borsh_encode_u64(x)
}

/// Decode a 64-bit integer. Succeeds exactly on eight bytes; fewer bytes
/// are `Truncated`, more are `Malformed`.
pub fn decode_u64(bytes: &[u8]) -> (r: Result<u64, DecodeError>)
    ensures
        match r {
            Ok(v) => bytes@.len() == 8 && bytes@ == u64_le_bytes(v),
            Err(DecodeError::Truncated) => bytes@.len() < 8,
            Err(DecodeError::Malformed) => bytes@.len() > 8,
        },
{
    let n = bytes.len();
    if n < 8 {
        Err(DecodeError::Truncated)
    } else if n > 8 {
        Err(DecodeError::Malformed)
    } else {
        let v = borsh_decode_u64(bytes);
        match v {
            Some(x) => {
                proof {
                    lemma_u64_le_image(bytes@);
                }
                Ok(x)
            },
            None => Err(DecodeError::Malformed),
        }
    }
}

/// The integer whose byte image sits at `off`: the eight little-endian
/// bytes starting there.
pub fn read_u64_at(bytes: &[u8], off: usize) -> (r: u64)
    requires
        off + 8 <= bytes@.len(),
    ensures
        u64_le_bytes(r) == bytes@.subrange(off as int, off + 8),
{
    let n = bytes.len();
    let mut chunk: Vec<u8> = Vec::new();
    let mut k: usize = 0;
    while k < 8
        invariant
            n == bytes@.len(),
            off + 8 <= n,
            0 <= k <= 8,
            chunk@ == bytes@.subrange(off as int, off + k),
        decreases 8 - k,
    {
        chunk.push(bytes[off + k]);
        proof {
            assert(bytes@.subrange(off as int, off + k + 1) =~= bytes@.subrange(
                off as int,
                off + k,
            ).push(bytes@[off + k]));
        }
        k += 1;
    }
    match decode_u64(chunk.as_slice()) {
        Ok(x) => x,
        Err(_) => {
            proof {
                assert(false);
            }
            0
        },
    }
}

/// The little-endian byte image of a 32-bit length prefix.
pub open spec fn u32_le_bytes(x: u32) -> Seq<u8> {
    seq![
        (x & 0xff) as u8,
        ((x >> 8) & 0xff) as u8,
        ((x >> 16) & 0xff) as u8,
        ((x >> 24) & 0xff) as u8,
    ]
}

/// The length prefix read back from four little-endian bytes.
pub open spec fn u32_from_le_bytes(s: Seq<u8>) -> u32
    recommends
        s.len() == 4,
{
    ((s[0] as u32) | ((s[1] as u32) << 8) | ((s[2] as u32) << 16) | ((s[3] as u32) << 24)) as u32
}

/// Reading a length prefix's byte image back yields the length.
pub proof fn lemma_u32_le_round_trip(x: u32)
    ensures
        u32_from_le_bytes(u32_le_bytes(x)) == x,
{
    assert((((x & 0xff) as u8 as u32) | ((((x >> 8) & 0xff) as u8 as u32) << 8) | ((((x >> 16)
        & 0xff) as u8 as u32) << 16) | ((((x >> 24) & 0xff) as u8 as u32) << 24)) == x)
        by (bit_vector);
}

/// Any four bytes are the byte image of the length they read back as.
pub proof fn lemma_u32_le_image(s: Seq<u8>)
    requires
        s.len() == 4,
    ensures
        u32_le_bytes(u32_from_le_bytes(s)) == s,
{
    let b0 = s[0];
    let b1 = s[1];
    let b2 = s[2];
    let b3 = s[3];
    let y = (((b0 as u32) | ((b1 as u32) << 8) | ((b2 as u32) << 16) | ((b3 as u32) << 24))
        as u32);
    assert((y & 0xff) as u8 == b0 && ((y >> 8) & 0xff) as u8 == b1 && ((y >> 16) & 0xff) as u8
        == b2 && ((y >> 24) & 0xff) as u8 == b3) by (bit_vector)
        requires
            y == (((b0 as u32) | ((b1 as u32) << 8) | ((b2 as u32) << 16) | ((b3 as u32) << 24))
                as u32),
    ;
    assert(u32_le_bytes(u32_from_le_bytes(s)) =~= s);
}

/// Every character of `s` is ASCII.
pub open spec fn ascii_chars(s: Seq<char>) -> bool {
    forall|i: int| 0 <= i < s.len() ==> '\0' <= #[trigger] s[i] <= '\u{7f}'
}

/// The codec's byte image of an ASCII string: a four-byte little-endian
/// character count, then one byte per character.
pub open spec fn str_encoding(s: Seq<char>) -> Seq<u8> {
    u32_le_bytes(s.len() as u32) + Seq::new(s.len(), |i: int| s[i] as u8)
}

/// The string image is injective on ASCII strings that fit the length
/// prefix: no two distinct strings share a byte image.
pub proof fn lemma_str_encoding_injective(s1: Seq<char>, s2: Seq<char>)
    requires
        ascii_chars(s1),
        ascii_chars(s2),
        s1.len() <= u32::MAX,
        s2.len() <= u32::MAX,
        str_encoding(s1) == str_encoding(s2),
    ensures
        s1 == s2,
{
    let e1 = str_encoding(s1);
    let e2 = str_encoding(s2);
    assert(e1.len() == 4 + s1.len() && e2.len() == 4 + s2.len());
    assert forall|i: int| 0 <= i < s1.len() implies s1[i] == s2[i] by {
        assert(e1[4 + i] == s1[i] as u8);
        assert(e2[4 + i] == s2[i] as u8);
        assert((s1[i] as u8) as char == s1[i]);
        assert((s2[i] as u8) as char == s2[i]);
    }
    assert(s1 =~= s2);
}

/// Relies on String::from_utf8: bytes below 128 are one-byte UTF-8
/// sequences, so they decode to the string holding exactly those
/// characters. Of other inputs nothing is assumed.
#[verifier::external_body]
fn string_from_ascii(bytes: Vec<u8>) -> (r: Option<String>)
    ensures
        (forall|i: int| 0 <= i < bytes@.len() ==> (#[trigger] bytes@[i]) < 128) ==> (match r {
            Some(s) => s@ == Seq::new(bytes@.len(), |i: int| bytes@[i] as char),
            None => false,
        }),
{
    String::from_utf8(bytes).ok()
}

/// Encode an ASCII string: its character count as four little-endian
/// bytes, then one byte per character.
pub fn encode_str(s: &str) -> (r: Vec<u8>)
    requires
        vstd::string::is_ascii(s),
        s@.len() <= u32::MAX,
    ensures
        r@ == str_encoding(s@),
{
    let n = s.unicode_len();
    let n32 = n as u32;
    let mut r: Vec<u8> = Vec::new();
    proof {
        assert((n32 & 0xff) < 256 && ((n32 >> 8) & 0xff) < 256 && ((n32 >> 16) & 0xff) < 256 && ((
        n32 >> 24) & 0xff) < 256) by (bit_vector);
    }
    r.push((n32 & 0xff) as u8);
    r.push(((n32 >> 8) & 0xff) as u8);
    r.push(((n32 >> 16) & 0xff) as u8);
    r.push(((n32 >> 24) & 0xff) as u8);
    let mut i: usize = 0;
    while i < n
        invariant
            n == s@.len(),
            n <= u32::MAX,
            n32 == n as u32,
            vstd::string::is_ascii(s),
            0 <= i <= n,
            r@.len() == 4 + i,
            r@.subrange(0, 4) == u32_le_bytes(n32),
            forall|j: int| 0 <= j < i ==> r@[4 + j] == (#[trigger] s@[j]) as u8,
        decreases n - i,
    {
        let c = s.get_char(i);
        proof {
            assert('\0' <= s@[i as int] <= '\u{7f}');
        }
        r.push(c as u8);
        proof {
            assert(r@.subrange(0, 4) =~= u32_le_bytes(n32));
        }
        i += 1;
    }
    proof {
        assert(r@ =~= str_encoding(s@));
    }
    r
}

/// Decode an ASCII string. Succeeds exactly when a four-byte length
/// prefix announces the rest of the input and every following byte is
/// ASCII; fewer bytes than announced are `Truncated`, trailing bytes or a
/// non-ASCII byte are `Malformed`.
pub fn decode_str(bytes: &[u8]) -> (r: Result<String, DecodeError>)
    ensures
        match r {
            Ok(t) => ascii_chars(t@) && t@.len() <= u32::MAX && str_encoding(t@) == bytes@,
            Err(DecodeError::Truncated) => bytes@.len() < 4 || bytes@.len() - 4
                < u32_from_le_bytes(bytes@.subrange(0, 4)),
            Err(DecodeError::Malformed) => bytes@.len() >= 4 && (bytes@.len() - 4
                > u32_from_le_bytes(bytes@.subrange(0, 4)) || exists|i: int|
                4 <= i < bytes@.len() && (#[trigger] bytes@[i]) >= 128),
        },
{
    let n = bytes.len();
    if n < 4 {
        return Err(DecodeError::Truncated);
    }
    let m = (bytes[0] as u32) | ((bytes[1] as u32) << 8) | ((bytes[2] as u32) << 16) | ((
    bytes[3] as u32) << 24);
    proof {
        assert(bytes@.subrange(0, 4)[0] == bytes@[0] && bytes@.subrange(0, 4)[1] == bytes@[1]
            && bytes@.subrange(0, 4)[2] == bytes@[2] && bytes@.subrange(0, 4)[3] == bytes@[3]);
    }
    if ((n - 4) as u64) < (m as u64) {
        return Err(DecodeError::Truncated);
    }
    if ((n - 4) as u64) > (m as u64) {
        return Err(DecodeError::Malformed);
    }
    let mut payload: Vec<u8> = Vec::new();
    let mut i: usize = 4;
    while i < n
        invariant
            n == bytes@.len(),
            4 <= i <= n,
            payload@ == bytes@.subrange(4, i as int),
            forall|j: int| 0 <= j < payload@.len() ==> (#[trigger] payload@[j]) < 128,
        decreases n - i,
    {
        let b = bytes[i];
        if b >= 128 {
            return Err(DecodeError::Malformed);
        }
        payload.push(b);
        proof {
            assert(bytes@.subrange(4, i + 1) =~= bytes@.subrange(4, i as int).push(
                bytes@[i as int],
            ));
        }
        i += 1;
    }
    let ghost pv = payload@;
    match string_from_ascii(payload) {
        Some(t) => {
            proof {
                lemma_u32_le_image(bytes@.subrange(0, 4));
                assert(t@.len() == pv.len());
                assert forall|j: int| 0 <= j < t@.len() implies '\0' <= #[trigger] t@[j]
                    <= '\u{7f}' && t@[j] as u8 == pv[j] by {
                    assert(t@[j] == pv[j] as char);
                }
                assert(str_encoding(t@) =~= bytes@);
            }
            Ok(t)
        },
        None => {
            proof {
                assert(false);
            }
            Err(DecodeError::Malformed)
        },
    }
}

/// A type the codec can store. The byte image is a pure function of the
/// logical value, and decoding succeeds precisely on canonical byte images,
/// returning the value they encode.
pub trait Storable: Sized {
    /// The canonical byte image of this value.
    spec fn encoding(self) -> Seq<u8>;

    /// Deterministic, total encoding: the result is exactly `self.encoding()`.
    fn encode(&self) -> (r: Vec<u8>)
        ensures
            r@ == self.encoding(),
    ;

    /// Exact decoding: a success returns the value whose byte image the
    /// input is; a failure means no value at all has that byte image.
    fn decode(bytes: &[u8]) -> (r: Result<Self, DecodeError>)
        ensures
            match r {
                Ok(v) => v.encoding() == bytes@,
                Err(_) => forall|v: Self| #[trigger] v.encoding() != bytes@,
            },
    ;

    /// Encoding is injective: no two distinct logical values share a byte
    /// image.
    proof fn lemma_encoding_injective(v1: Self, v2: Self)
        ensures
            v1.encoding() == v2.encoding() ==> v1 == v2,
    ;
}

impl Storable for u64 {
    open spec fn encoding(self) -> Seq<u8> {
        u64_le_bytes(self)
    }

    fn encode(&self) -> (r: Vec<u8>) {
        encode_u64(*self)
    }

    fn decode(bytes: &[u8]) -> (r: Result<Self, DecodeError>) {
        let r = decode_u64(bytes);
        proof {
            if r is Err {
                assert forall|v: u64| #[trigger] v.encoding() != bytes@ by {
                    assert(u64_le_bytes(v).len() == 8);
                }
            }
        }
        r
    }

    proof fn lemma_encoding_injective(v1: Self, v2: Self) {
        lemma_u64_le_round_trip(v1);
        lemma_u64_le_round_trip(v2);
    }
}

} // verus!
