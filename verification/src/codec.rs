//! The binary codec for `Value`: serialization and deserialization are
//! inverses for every representable value.
//!
//! Encoding: `Int32` and `Float32` are 4 little-endian bytes of the raw
//! 32-bit pattern; `String` is a 4-byte little-endian **byte**-length
//! prefix followed by the UTF-8 bytes of the text.

use vstd::prelude::*;

use crate::types::{DataType, DbError, Value, ValueView};
use vstd::utf8::{decode_utf8, encode_utf8, valid_utf8};

verus! {

/// The 4 little-endian bytes of a 32-bit pattern.
pub open spec fn u32_le_bytes(n: u32) -> Seq<u8> {
    seq![
        (n % 256) as u8,
        ((n / 256) % 256) as u8,
        ((n / 65536) % 256) as u8,
        ((n / 16777216) % 256) as u8,
    ]
}

/// The 32-bit pattern read from the first 4 bytes, little-endian.
pub open spec fn u32_le(s: Seq<u8>) -> u32
    recommends
        s.len() >= 4,
{
    (s[0] + s[1] * 0x100 + s[2] * 0x10000 + s[3] * 0x1000000) as u32
}

/// The two's-complement bit pattern of a signed 32-bit integer.
pub open spec fn i32_bits(i: i32) -> u32 {
    if i >= 0 {
        i as u32
    } else {
        (i + 0x1_0000_0000) as u32
    }
}

/// The signed 32-bit integer denoted by a two's-complement bit pattern.
pub open spec fn bits_i32(b: u32) -> i32 {
    if b < 0x8000_0000 {
        b as i32
    } else {
        (b - 0x1_0000_0000) as i32
    }
}

/// The exact byte sequence the codec produces for a value.
pub open spec fn spec_serialize(v: ValueView) -> Seq<u8> {
    match v {
        ValueView::Int32(i) => u32_le_bytes(i32_bits(i)),
        ValueView::Float32(b) => u32_le_bytes(b),
        ValueView::Text(s) => u32_le_bytes(encode_utf8(s).len() as u32) + encode_utf8(s),
    }
}

/// A value is representable by the codec when its encoded byte length fits
/// the 4-byte length prefix; numbers always are.
pub open spec fn representable(v: ValueView) -> bool {
    match v {
        ValueView::Text(s) => encode_utf8(s).len() <= 0xffff_ffff,
        _ => true,
    }
}

/// The value decoded from a prefix of `bytes` under the declared type;
/// `None` when the buffer is too short or the text is not valid UTF-8.
/// Bytes beyond what the declared type requires are ignored.
pub open spec fn spec_deserialize(dt: DataType, bytes: Seq<u8>) -> Option<ValueView> {
    match dt {
        DataType::Int32 => if bytes.len() >= 4 {
            Some(ValueView::Int32(bits_i32(u32_le(bytes))))
        } else {
            None
        },
        DataType::Float32 => if bytes.len() >= 4 {
            Some(ValueView::Float32(u32_le(bytes)))
        } else {
            None
        },
        DataType::String => if bytes.len() < 4 {
            None
        } else {
            let n = u32_le(bytes) as int;
            if bytes.len() < 4 + n {
                None
            } else {
                let payload = bytes.subrange(4, 4 + n);
                if valid_utf8(payload) {
                    Some(ValueView::Text(decode_utf8(payload)))
                } else {
                    None
                }
            }
        },
    }
}

/// Reading back the 4 little-endian bytes of a pattern yields the pattern.
pub proof fn lemma_u32_le_round_trip(n: u32)
    ensures
        u32_le(u32_le_bytes(n)) == n,
{
    let b = u32_le_bytes(n);
    assert(n == (n % 256) + 256 * (n / 256)) by (nonlinear_arith);
    assert(n / 256 == ((n / 256) % 256) + 256 * ((n / 256) / 256)) by (nonlinear_arith);
    assert((n / 256) / 256 == n / 65536) by (nonlinear_arith);
    assert(n / 65536 == ((n / 65536) % 256) + 256 * ((n / 65536) / 256)) by (nonlinear_arith);
    assert((n / 65536) / 256 == n / 16777216) by (nonlinear_arith);
    assert(n / 16777216 < 256) by (nonlinear_arith);
    assert(b[0] + b[1] * 0x100 + b[2] * 0x10000 + b[3] * 0x1000000 == n) by (nonlinear_arith)
        requires
            b[0] == n % 256,
            b[1] == (n / 256) % 256,
            b[2] == (n / 65536) % 256,
            b[3] == (n / 16777216) % 256,
            n == (n % 256) + 256 * (n / 256),
            n / 256 == ((n / 256) % 256) + 256 * (n / 65536),
            n / 65536 == ((n / 65536) % 256) + 256 * (n / 16777216),
            n / 16777216 < 256,
    ;
}

/// The two's-complement conversions are inverse to one another.
pub proof fn lemma_i32_bits_round_trip(i: i32)
    ensures
        bits_i32(i32_bits(i)) == i,
{
}

/// Codec round-trip: decoding an encoded value under its own type yields
/// the value back, for every representable value.
pub proof fn lemma_codec_round_trip(v: ValueView)
    requires
        representable(v),
    ensures
        spec_deserialize(v.data_type(), spec_serialize(v)) == Some(v),
{
    match v {
        ValueView::Int32(i) => {
            lemma_u32_le_round_trip(i32_bits(i));
            lemma_i32_bits_round_trip(i);
        },
        ValueView::Float32(b) => {
            lemma_u32_le_round_trip(b);
        },
        ValueView::Text(s) => {
            let payload = encode_utf8(s);
            let n = payload.len() as u32;
            let bytes = spec_serialize(v);
            lemma_u32_le_round_trip(n);
            assert(u32_le(bytes) == u32_le(u32_le_bytes(n))) by {
                assert(bytes[0] == u32_le_bytes(n)[0]);
                assert(bytes[1] == u32_le_bytes(n)[1]);
                assert(bytes[2] == u32_le_bytes(n)[2]);
                assert(bytes[3] == u32_le_bytes(n)[3]);
            }
            assert(bytes.subrange(4, 4 + n as int) =~= payload);
            vstd::utf8::encode_utf8_valid_utf8(s);
            vstd::utf8::encode_utf8_decode_utf8(s);
        },
    }
}

/// Decoding fails on every buffer shorter than the declared type demands:
/// fewer than 4 bytes for any type, or, for text, fewer than the declared
/// string length requires.
pub proof fn lemma_decode_short_buffer(dt: DataType, bytes: Seq<u8>)
    ensures
        bytes.len() < 4 ==> spec_deserialize(dt, bytes) is None,
        dt == DataType::String && bytes.len() >= 4 && bytes.len() < 4 + u32_le(bytes) as int
            ==> spec_deserialize(dt, bytes) is None,
{
}

/// Appends the 4 little-endian bytes of a pattern to a buffer.
fn push_u32_le(out: &mut Vec<u8>, n: u32)
    ensures
        final(out)@ == old(out)@ + u32_le_bytes(n),
{
    out.push((n % 256) as u8);
    out.push(((n / 256) % 256) as u8);
    out.push(((n / 65536) % 256) as u8);
    out.push(((n / 16777216) % 256) as u8);
    assert(final(out)@ =~= old(out)@ + u32_le_bytes(n));
}

/// Reads the 32-bit pattern stored little-endian at the front of a buffer.
fn read_u32_le(bytes: &[u8], at: usize) -> (n: u32)
    requires
        at + 4 <= bytes@.len(),
    ensures
        n == u32_le(bytes@.skip(at as int)),
{
    let b0 = bytes[at] as u32;
    let b1 = bytes[at + 1] as u32;
    let b2 = bytes[at + 2] as u32;
    let b3 = bytes[at + 3] as u32;
    proof {
        assert(bytes@.skip(at as int)[0] == bytes@[at as int]);
        assert(bytes@.skip(at as int)[1] == bytes@[at as int + 1]);
        assert(bytes@.skip(at as int)[2] == bytes@[at as int + 2]);
        assert(bytes@.skip(at as int)[3] == bytes@[at as int + 3]);
    }
    b0 + b1 * 0x100 + b2 * 0x10000 + b3 * 0x1000000
}

impl Value {
    /// Encodes this value to its exact byte representation.
    pub fn serialize(&self) -> (r: Vec<u8>)
        requires
            representable(self@),
        ensures
            r@ == spec_serialize(self@),
    {
        let mut out: Vec<u8> = Vec::new();
        match self {
            Value::Int32(i) => {
                let bits: u32 = if *i >= 0 {
                    *i as u32
                } else {
                    (*i as i64 + 0x1_0000_0000) as u32
                };
                assert(bits == i32_bits(*i));
                push_u32_le(&mut out, bits);
            },
            Value::Float32(b) => {
                push_u32_le(&mut out, *b);
            },
            Value::String(s) => {
                let len = s.as_str().len();
                push_u32_le(&mut out, len as u32);
                out.extend_from_slice(s.as_str().as_bytes());
            },
        }
        out
    }

    /// Decodes a value of the declared type from the front of `bytes`.
    /// Succeeds exactly when the buffer is long enough and, for text, the
    /// payload is valid UTF-8; every failure is a serialization error.
    pub fn deserialize(data_type: &DataType, bytes: &[u8]) -> (r: Result<Value, DbError>)
        ensures
            match spec_deserialize(*data_type, bytes@) {
                Some(w) => r matches Ok(v) && v@ == w,
                None => r matches Err(e) && e matches DbError::SerializationError(_),
            },
    {
        match data_type {
            DataType::Int32 => {
                if bytes.len() >= 4 {
                    let n = read_u32_le(bytes, 0);
                    proof {
                        assert(bytes@.skip(0) =~= bytes@);
                    }
                    let i: i32 = if n < 0x8000_0000 {
                        n as i32
                    } else {
                        (n as i64 - 0x1_0000_0000) as i32
                    };
                    assert(i == bits_i32(n));
                    Ok(Value::Int32(i))
                } else {
                    Err(DbError::SerializationError(String::from_str("Insufficient bytes for Int32")))
                }
            },
            DataType::Float32 => {
                if bytes.len() >= 4 {
                    let n = read_u32_le(bytes, 0);
                    proof {
                        assert(bytes@.skip(0) =~= bytes@);
                    }
                    Ok(Value::Float32(n))
                } else {
                    Err(
                        DbError::SerializationError(
                            String::from_str("Insufficient bytes for Float32"),
                        ),
                    )
                }
            },
            DataType::String => {
                if bytes.len() < 4 {
                    return Err(
                        DbError::SerializationError(
                            String::from_str("Insufficient bytes for String length"),
                        ),
                    );
                }
                let n = read_u32_le(bytes, 0);
                proof {
                    assert(bytes@.skip(0) =~= bytes@);
                }
                let n_usize = n as usize;
                let blen = bytes.len();
                if blen - 4 < n_usize {
                    return Err(
                        DbError::SerializationError(
                            String::from_str("Insufficient bytes for String"),
                        ),
                    );
                }
                let mut payload: Vec<u8> = Vec::new();
                let mut k: usize = 0;
                while k < n_usize
                    invariant
                        0 <= k <= n_usize,
                        4 + n_usize <= blen,
                        blen == bytes@.len(),
                        payload@ == bytes@.subrange(4, 4 + k as int),
                    decreases n_usize - k,
                {
                    payload.push(bytes[4 + k]);
                    assert(payload@ =~= bytes@.subrange(4, 4 + (k + 1) as int));
                    k = k + 1;
                }
                assert(payload@ == bytes@.subrange(4, 4 + n as int));
                match crate::types::bytes_to_text(payload) {
                    Some(s) => Ok(Value::String(s)),
                    None => Err(
                        DbError::SerializationError(String::from_str("Invalid UTF-8 in String")),
                    ),
                }
            },
        }
    }

    /// The exact number of bytes `serialize` will produce for this value.
    pub fn serialized_size(&self) -> (r: usize)
        requires
            representable(self@),
            spec_serialize(self@).len() <= usize::MAX,
        ensures
            r == spec_serialize(self@).len(),
    {
        match self {
            Value::Int32(_) => 4,
            Value::Float32(_) => 4,
            Value::String(s) => 4 + s.as_str().len(),
        }
    }
}

} // verus!
