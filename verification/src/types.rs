//! The value and type model: the closed union of storage-level values,
//! their comparison semantics, and the error taxonomy.

use vstd::prelude::*;

verus! {

/// The declared type of a column: the three primitive kinds the storage
/// layer materializes.
#[derive(Clone, Copy, Debug, PartialEq, Eq, Structural)]
pub enum DataType {
    Int32,
    Float32,
    String,
}

/// A stored value. `Float32` carries the raw bit pattern of an IEEE 754
/// single-precision number, so the codec and the total order can be stated
/// exactly over plain integers; callers convert with `f32::to_bits` /
/// `f32::from_bits` at the boundary.
#[derive(Debug)]
pub enum Value {
    Int32(i32),
    Float32(u32),
    String(String),
}

/// The mathematical shape of a `Value`: text is a sequence of characters.
pub enum ValueView {
    Int32(i32),
    Float32(u32),
    Text(Seq<char>),
}

impl View for Value {
    type V = ValueView;

    open spec fn view(&self) -> ValueView {
        match self {
            Value::Int32(i) => ValueView::Int32(*i),
            Value::Float32(b) => ValueView::Float32(*b),
            Value::String(s) => ValueView::Text(s@),
        }
    }
}

impl DeepView for Value {
    type V = ValueView;

    open spec fn deep_view(&self) -> ValueView {
        self.view()
    }
}

/// All bits of a float's pattern except the sign bit.
pub open spec fn f32_abs_bits(b: u32) -> u32 {
    if b >= 0x8000_0000 {
        (b - 0x8000_0000) as u32
    } else {
        b
    }
}

/// Whether a bit pattern denotes a NaN (exponent all ones, mantissa nonzero).
pub open spec fn f32_is_nan(b: u32) -> bool {
    f32_abs_bits(b) > 0x7f80_0000
}

/// Order key of a non-NaN float bit pattern: the sign-magnitude encoding
/// read as a signed integer. Both zeros map to 0, so `-0.0` and `+0.0`
/// compare equal, and the key order is exactly the numeric order.
pub open spec fn f32_key(b: u32) -> int {
    if b >= 0x8000_0000 {
        -((b - 0x8000_0000) as int)
    } else {
        b as int
    }
}

/// Total order on float bit patterns: NaN compares equal to NaN and greater
/// than every other value; all other patterns compare numerically.
pub open spec fn f32_cmp(a: u32, b: u32) -> core::cmp::Ordering {
    if f32_is_nan(a) {
        if f32_is_nan(b) {
            core::cmp::Ordering::Equal
        } else {
            core::cmp::Ordering::Greater
        }
    } else if f32_is_nan(b) {
        core::cmp::Ordering::Less
    } else if f32_key(a) < f32_key(b) {
        core::cmp::Ordering::Less
    } else if f32_key(a) == f32_key(b) {
        core::cmp::Ordering::Equal
    } else {
        core::cmp::Ordering::Greater
    }
}

/// Float equality under the total order: numerically equal, or both NaN.
pub open spec fn f32_eq(a: u32, b: u32) -> bool {
    f32_cmp(a, b) == core::cmp::Ordering::Equal
}

/// Lexicographic order on character sequences, which for Rust strings
/// coincides with the byte order of their UTF-8 encodings.
pub open spec fn lex_cmp(a: Seq<char>, b: Seq<char>) -> core::cmp::Ordering
    decreases a.len(),
{
    if a.len() == 0 && b.len() == 0 {
        core::cmp::Ordering::Equal
    } else if a.len() == 0 {
        core::cmp::Ordering::Less
    } else if b.len() == 0 {
        core::cmp::Ordering::Greater
    } else if a[0] < b[0] {
        core::cmp::Ordering::Less
    } else if b[0] < a[0] {
        core::cmp::Ordering::Greater
    } else {
        lex_cmp(a.drop_first(), b.drop_first())
    }
}

/// Tag-respecting equality on values: cross-tag pairs are never equal;
/// floats compare as `f32_eq`, so `-0.0 == +0.0` and `NaN == NaN`.
pub open spec fn value_eq(a: ValueView, b: ValueView) -> bool {
    match (a, b) {
        (ValueView::Int32(x), ValueView::Int32(y)) => x == y,
        (ValueView::Float32(x), ValueView::Float32(y)) => f32_eq(x, y),
        (ValueView::Text(x), ValueView::Text(y)) => x == y,
        _ => false,
    }
}

/// Partial order on values: defined within a tag, undefined across tags.
pub open spec fn value_partial_cmp(a: ValueView, b: ValueView) -> Option<core::cmp::Ordering> {
    match (a, b) {
        (ValueView::Int32(x), ValueView::Int32(y)) => Some(int_cmp(x as int, y as int)),
        (ValueView::Float32(x), ValueView::Float32(y)) => Some(f32_cmp(x, y)),
        (ValueView::Text(x), ValueView::Text(y)) => Some(lex_cmp(x, y)),
        _ => None,
    }
}

/// The forced total order used by sort-based operators: cross-tag pairs
/// collapse to `Equal`; callers must not rely on cross-tag ordering.
pub open spec fn value_total_cmp(a: ValueView, b: ValueView) -> core::cmp::Ordering {
    match value_partial_cmp(a, b) {
        Some(o) => o,
        None => core::cmp::Ordering::Equal,
    }
}

/// Order of two mathematical integers.
pub open spec fn int_cmp(a: int, b: int) -> core::cmp::Ordering {
    if a < b {
        core::cmp::Ordering::Less
    } else if a == b {
        core::cmp::Ordering::Equal
    } else {
        core::cmp::Ordering::Greater
    }
}

impl Clone for Value {
    /// Cloning preserves the mathematical value.
    fn clone(&self) -> (r: Self)
        ensures
            r@ == self@,
    {
        match self {
            Value::Int32(i) => Value::Int32(*i),
            Value::Float32(b) => Value::Float32(*b),
            Value::String(s) => Value::String(s.clone()),
        }
    }
}

impl PartialEq for Value {
    fn eq(&self, other: &Self) -> (r: bool) {
        match (self, other) {
            (Value::Int32(x), Value::Int32(y)) => *x == *y,
            (Value::Float32(x), Value::Float32(y)) => f32_bits_eq(*x, *y),
            (Value::String(x), Value::String(y)) => x.eq(y),
            _ => false,
        }
    }
}

impl Eq for Value {

}

impl vstd::std_specs::cmp::PartialEqSpecImpl for Value {
    open spec fn obeys_eq_spec() -> bool {
        true
    }

    open spec fn eq_spec(&self, other: &Self) -> bool {
        value_eq(self@, other@)
    }
}

/// Runtime test of `f32_eq` on two bit patterns.
pub fn f32_bits_eq(a: u32, b: u32) -> (r: bool)
    ensures
        r == f32_eq(a, b),
{
    let na = f32_bits_is_nan(a);
    let nb = f32_bits_is_nan(b);
    if na || nb {
        na && nb
    } else {
        f32_bits_key_cmp(a, b) == 0i8
    }
}

/// Runtime test of `f32_is_nan`.
fn f32_bits_is_nan(b: u32) -> (r: bool)
    ensures
        r == f32_is_nan(b),
{
    let abs = if b >= 0x8000_0000 {
        b - 0x8000_0000
    } else {
        b
    };
    abs > 0x7f80_0000
}

/// Compares the order keys of two non-NaN bit patterns; returns -1, 0 or 1.
fn f32_bits_key_cmp(a: u32, b: u32) -> (r: i8)
    ensures
        r == -1i8 <==> f32_key(a) < f32_key(b),
        r == 0i8 <==> f32_key(a) == f32_key(b),
        r == 1i8 <==> f32_key(a) > f32_key(b),
{
    let neg_a = a >= 0x8000_0000;
    let neg_b = b >= 0x8000_0000;
    let mag_a = if neg_a {
        a - 0x8000_0000
    } else {
        a
    };
    let mag_b = if neg_b {
        b - 0x8000_0000
    } else {
        b
    };
    if neg_a && neg_b {
        if mag_a > mag_b {
            -1
        } else if mag_a == mag_b {
            0
        } else {
            1
        }
    } else if neg_a {
        if mag_a == 0 && mag_b == 0 {
            0
        } else {
            -1
        }
    } else if neg_b {
        if mag_a == 0 && mag_b == 0 {
            0
        } else {
            1
        }
    } else {
        if mag_a < mag_b {
            -1
        } else if mag_a == mag_b {
            0
        } else {
            1
        }
    }
}

/// Runtime comparison of two float bit patterns under the total order.
pub fn f32_bits_cmp(a: u32, b: u32) -> (o: core::cmp::Ordering)
    ensures
        o == f32_cmp(a, b),
{
    let na = f32_bits_is_nan(a);
    let nb = f32_bits_is_nan(b);
    if na {
        if nb {
            core::cmp::Ordering::Equal
        } else {
            core::cmp::Ordering::Greater
        }
    } else if nb {
        core::cmp::Ordering::Less
    } else {
        let k = f32_bits_key_cmp(a, b);
        if k == -1i8 {
            core::cmp::Ordering::Less
        } else if k == 0i8 {
            core::cmp::Ordering::Equal
        } else {
            core::cmp::Ordering::Greater
        }
    }
}

impl Value {
    /// The `DataType` this value's tag corresponds to.
    pub fn data_type(&self) -> (dt: DataType)
        ensures
            dt == self@.data_type(),
    {
        match self {
            Value::Int32(_) => DataType::Int32,
            Value::Float32(_) => DataType::Float32,
            Value::String(_) => DataType::String,
        }
    }

    /// Comparison within a tag; `None` for incomparable cross-tag pairs.
    pub fn try_compare(&self, other: &Value) -> (o: Option<core::cmp::Ordering>)
        ensures
            o == value_partial_cmp(self@, other@),
    {
        match (self, other) {
            (Value::Int32(x), Value::Int32(y)) => {
                if *x < *y {
                    Some(core::cmp::Ordering::Less)
                } else if *x == *y {
                    Some(core::cmp::Ordering::Equal)
                } else {
                    Some(core::cmp::Ordering::Greater)
                }
            },
            (Value::Float32(x), Value::Float32(y)) => Some(f32_bits_cmp(*x, *y)),
            (Value::String(x), Value::String(y)) => Some(str_lex_cmp(x.as_str(), y.as_str())),
            _ => None,
        }
    }

    /// The forced total order: cross-tag pairs collapse to `Equal`.
    pub fn compare(&self, other: &Value) -> (o: core::cmp::Ordering)
        ensures
            o == value_total_cmp(self@, other@),
    {
        match self.try_compare(other) {
            Some(o) => o,
            None => core::cmp::Ordering::Equal,
        }
    }
}

impl ValueView {
    /// The tag of an abstract value.
    pub open spec fn data_type(self) -> DataType {
        match self {
            ValueView::Int32(_) => DataType::Int32,
            ValueView::Float32(_) => DataType::Float32,
            ValueView::Text(_) => DataType::String,
        }
    }
}

/// A common prefix does not affect the comparison of the remainders.
proof fn lemma_lex_cmp_skip(a: Seq<char>, b: Seq<char>, i: int)
    requires
        0 <= i <= a.len(),
        i <= b.len(),
        a.subrange(0, i) == b.subrange(0, i),
    ensures
        lex_cmp(a, b) == lex_cmp(a.skip(i), b.skip(i)),
    decreases i,
{
    if i > 0 {
        assert(a.subrange(0, i)[0] == a[0]);
        assert(b.subrange(0, i)[0] == b[0]);
        assert(a[0] == b[0]);
        assert(a.len() > 0 && b.len() > 0);
        assert(a.drop_first().subrange(0, i - 1) == b.drop_first().subrange(0, i - 1)) by {
            assert forall|k: int| 0 <= k < i - 1 implies a.drop_first()[k] == b.drop_first()[k] by {
                assert(a.subrange(0, i)[k + 1] == b.subrange(0, i)[k + 1]);
                assert(a.subrange(0, i)[k + 1] == a[k + 1]);
                assert(b.subrange(0, i)[k + 1] == b[k + 1]);
                assert(a.drop_first()[k] == a[k + 1]);
                assert(b.drop_first()[k] == b[k + 1]);
            }
            assert(a.drop_first().subrange(0, i - 1) =~= b.drop_first().subrange(0, i - 1));
        }
        lemma_lex_cmp_skip(a.drop_first(), b.drop_first(), i - 1);
        assert(a.drop_first().skip(i - 1) =~= a.skip(i));
        assert(b.drop_first().skip(i - 1) =~= b.skip(i));
    } else {
        assert(a.skip(0) =~= a);
        assert(b.skip(0) =~= b);
    }
}

/// Runtime lexicographic comparison of two strings, character by character.
pub fn str_lex_cmp(a: &str, b: &str) -> (o: core::cmp::Ordering)
    ensures
        o == lex_cmp(a@, b@),
{
    let a_len = a.unicode_len();
    let b_len = b.unicode_len();
    let n = if a_len < b_len {
        a_len
    } else {
        b_len
    };
    let mut i: usize = 0;
    while i < n
        invariant
            0 <= i <= n,
            n == if a_len < b_len {
                a_len as int
            } else {
                b_len as int
            },
            a_len == a@.len(),
            b_len == b@.len(),
            a@.subrange(0, i as int) == b@.subrange(0, i as int),
        decreases n - i,
    {
        let ca = a.get_char(i);
        let cb = b.get_char(i);
        if ca < cb {
            proof {
                lemma_lex_cmp_skip(a@, b@, i as int);
            }
            return core::cmp::Ordering::Less;
        }
        if cb < ca {
            proof {
                lemma_lex_cmp_skip(a@, b@, i as int);
            }
            return core::cmp::Ordering::Greater;
        }
        proof {
            assert(a@.subrange(0, i + 1) =~= b@.subrange(0, i + 1)) by {
                assert(forall|k: int|
                    0 <= k < i ==> a@.subrange(0, i as int)[k] == b@.subrange(0, i as int)[k]);
                assert(ca == a@[i as int] && cb == b@[i as int]);
                assert(ca == cb);
            }
        }
        i = i + 1;
    }
    proof {
        lemma_lex_cmp_skip(a@, b@, n as int);
    }
    if a_len < b_len {
        core::cmp::Ordering::Less
    } else if b_len < a_len {
        core::cmp::Ordering::Greater
    } else {
        core::cmp::Ordering::Equal
    }
}

/// Lexicographic comparison returns `Equal` exactly on equal sequences.
pub proof fn lemma_lex_cmp_eq(a: Seq<char>, b: Seq<char>)
    ensures
        (lex_cmp(a, b) == core::cmp::Ordering::Equal) <==> a == b,
    decreases a.len(),
{
    if a.len() == 0 && b.len() == 0 {
        assert(a =~= b);
    } else if a.len() == 0 || b.len() == 0 {
        assert(a != b) by {
            assert(a.len() != b.len());
        }
    } else if a[0] < b[0] || b[0] < a[0] {
        assert(a[0] != b[0]);
        assert(a != b);
    } else {
        assert(a[0] == b[0]);
        lemma_lex_cmp_eq(a.drop_first(), b.drop_first());
        if a.drop_first() == b.drop_first() {
            assert(a =~= b) by {
                assert(a.len() == b.len());
                assert(forall|k: int|
                    1 <= k < a.len() ==> a[k] == a.drop_first()[k - 1] && b[k]
                        == b.drop_first()[k - 1]);
            }
        }
        if a == b {
            assert(a.drop_first() =~= b.drop_first());
        }
    }
}

/// Runtime equality of two string slices, by their character sequences.
pub fn str_eq(a: &str, b: &str) -> (r: bool)
    ensures
        r == (a@ == b@),
{
    proof {
        lemma_lex_cmp_eq(a@, b@);
    }
    matches!(str_lex_cmp(a, b), core::cmp::Ordering::Equal)
}

/// The per-column on-disk encoding choice; it affects only the stored
/// layout, never the logical value contract. `Plain` leaves the value
/// stream unencoded.
#[derive(Clone, Copy, Debug, PartialEq, Eq, Structural)]
pub enum CompressionType {
    Plain,
    Rle,
    Dictionary,
}

/// The functional error taxonomy: every failure the core produces,
/// organized by origin.
#[derive(Clone, Debug)]
#[non_exhaustive]
pub enum DbError {
    IoError(String),
    SerializationError(String),
    TypeMismatch,
    InvalidData(String),
    QueryError(String),
    ValidationError(String),
    ConcurrencyError(String),
    ConfigurationError(String),
    SchemaError(String),
    StorageError(String),
}

impl DbError {
    /// A human-readable description, in place of a `Display` rendering.
    pub fn message(&self) -> (r: String)
        ensures
            self matches DbError::IoError(s) ==> r@ == "IO Error: "@ + s@,
            self matches DbError::SerializationError(s) ==> r@ == "Serialization Error: "@ + s@,
            self matches DbError::TypeMismatch ==> r@ == "Type Mismatch"@,
            self matches DbError::InvalidData(s) ==> r@ == "Invalid Data: "@ + s@,
            self matches DbError::QueryError(s) ==> r@ == "Query Error: "@ + s@,
            self matches DbError::ValidationError(s) ==> r@ == "Validation Error: "@ + s@,
            self matches DbError::ConcurrencyError(s) ==> r@ == "Concurrency Error: "@ + s@,
            self matches DbError::ConfigurationError(s) ==> r@ == "Configuration Error: "@ + s@,
            self matches DbError::SchemaError(s) ==> r@ == "Schema Error: "@ + s@,
            self matches DbError::StorageError(s) ==> r@ == "Storage Error: "@ + s@,
    {
        match self {
            DbError::IoError(s) => String::from_str("IO Error: ").concat(s.as_str()),
            DbError::SerializationError(s) => String::from_str("Serialization Error: ").concat(
                s.as_str(),
            ),
            DbError::TypeMismatch => String::from_str("Type Mismatch"),
            DbError::InvalidData(s) => String::from_str("Invalid Data: ").concat(s.as_str()),
            DbError::QueryError(s) => String::from_str("Query Error: ").concat(s.as_str()),
            DbError::ValidationError(s) => String::from_str("Validation Error: ").concat(s.as_str()),
            DbError::ConcurrencyError(s) => String::from_str("Concurrency Error: ").concat(
                s.as_str(),
            ),
            DbError::ConfigurationError(s) => String::from_str("Configuration Error: ").concat(
                s.as_str(),
            ),
            DbError::SchemaError(s) => String::from_str("Schema Error: ").concat(s.as_str()),
            DbError::StorageError(s) => String::from_str("Storage Error: ").concat(s.as_str()),
        }
    }
}


/// The decimal digits of a number, most significant first.
pub open spec fn dec_str(n: nat) -> Seq<char>
    decreases n,
{
    if n < 10 {
        seq![((48 + n) as u8) as char]
    } else {
        dec_str(n / 10).push(((48 + (n % 10)) as u8) as char)
    }
}

/// Decimal digit sequences hold ASCII characters only.
proof fn lemma_dec_str_ascii(n: nat)
    ensures
        vstd::utf8::is_ascii_chars(dec_str(n)),
        dec_str(n).len() >= 1,
    decreases n,
{
    if n >= 10 {
        lemma_dec_str_ascii(n / 10);
        let s = dec_str(n);
        assert forall|i: int| 0 <= i < s.len() implies '\0' <= #[trigger] s[i] <= '\u{7f}' by {
            if i < s.len() - 1 {
                assert(s[i] == dec_str(n / 10)[i]);
            }
        }
    }
}

/// The decimal rendering of a 64-bit number.
pub fn u64_to_string(n: u64) -> (s: String)
    ensures
        s@ == dec_str(n as nat),
{
    // digit bytes, least significant first
    let mut rev: Vec<u8> = Vec::new();
    let mut m: u64 = n;
    rev.push(48 + (m % 10) as u8);
    m = m / 10;
    proof {
        assert(dec_str(n as nat) == (if m > 0 {
            dec_str(m as nat)
        } else {
            Seq::<char>::empty()
        }) + rev@.reverse().map_values(|b: u8| b as char)) by {
            assert(rev@.reverse() =~= rev@);
            if n < 10 {
                assert(dec_str(n as nat) =~= rev@.map_values(|b: u8| b as char));
            } else {
                assert(dec_str(n as nat) =~= dec_str((n as nat) / 10) + rev@.map_values(
                    |b: u8| b as char,
                ));
            }
        }
    }
    while m > 0
        invariant
            dec_str(n as nat) == (if m > 0 {
                dec_str(m as nat)
            } else {
                Seq::<char>::empty()
            }) + rev@.reverse().map_values(|b: u8| b as char),
            rev@.len() >= 1,
            forall|i: int| 0 <= i < rev@.len() ==> 48 <= #[trigger] rev@[i] <= 57,
        decreases m,
    {
        let ghost rev0 = rev@;
        let ghost m0 = m as nat;
        rev.push(48 + (m % 10) as u8);
        m = m / 10;
        proof {
            assert(rev@.reverse() =~= seq![rev@[rev0.len() as int]] + rev0.reverse());
            assert(dec_str(m0) == (if m > 0 {
                dec_str(m as nat)
            } else {
                Seq::<char>::empty()
            }) + seq![((48 + (m0 % 10)) as u8) as char]) by {
                if m0 >= 10 {
                    assert(dec_str(m0) == dec_str(m0 / 10).push(((48 + (m0 % 10)) as u8) as char));
                    assert(dec_str(m0) =~= dec_str(m0 / 10) + seq![((48 + (m0 % 10)) as u8) as char]);
                } else {
                    assert(dec_str(m0) =~= seq![((48 + (m0 % 10)) as u8) as char]);
                }
            }
            assert((seq![rev@[rev0.len() as int]] + rev0.reverse()).map_values(|b: u8| b as char)
                =~= seq![((48 + (m0 % 10)) as u8) as char] + rev0.reverse().map_values(
                |b: u8| b as char,
            ));
            assert(dec_str(n as nat) =~= (if m > 0 {
                dec_str(m as nat)
            } else {
                Seq::<char>::empty()
            }) + rev@.reverse().map_values(|b: u8| b as char)) by {
                assert(Seq::<char>::empty() + rev@.reverse().map_values(|b: u8| b as char)
                    =~= rev@.reverse().map_values(|b: u8| b as char));
            }
        }
    }
    // reverse into most-significant-first byte order
    let len = rev.len();
    let mut bytes: Vec<u8> = Vec::new();
    let mut i: usize = 0;
    while i < len
        invariant
            0 <= i <= len,
            len == rev@.len(),
            bytes@.len() == i,
            forall|k: int| 0 <= k < i ==> bytes@[k] == rev@.reverse()[k],
        decreases len - i,
    {
        bytes.push(rev[len - 1 - i]);
        proof {
            assert(rev@.reverse()[i as int] == rev@[len - 1 - i]);
        }
        i = i + 1;
    }
    let ghost chars = dec_str(n as nat);
    proof {
        lemma_dec_str_ascii(n as nat);
        assert(bytes@ =~= rev@.reverse());
        assert(chars == rev@.reverse().map_values(|b: u8| b as char)) by {
            assert(Seq::<char>::empty() + rev@.reverse().map_values(|b: u8| b as char)
                =~= rev@.reverse().map_values(|b: u8| b as char));
        }
        vstd::utf8::is_ascii_chars_encode_utf8(chars);
        assert(vstd::utf8::encode_utf8(chars) =~= bytes@) by {
            assert forall|k: int|
                0 <= k < chars.len() implies vstd::utf8::encode_utf8(chars)[k] == bytes@[k] by {
                assert(chars[k] as u8 == vstd::utf8::encode_utf8(chars)[k]);
                assert(chars[k] == (rev@.reverse()[k] as char));
                assert(48 <= rev@.reverse()[k] <= 57) by {
                    assert(rev@.reverse()[k] == rev@[rev@.len() - 1 - k]);
                }
            }
        }
        vstd::utf8::encode_utf8_valid_utf8(chars);
        vstd::utf8::encode_utf8_decode_utf8(chars);
    }
    match bytes_to_text(bytes) {
        Some(s) => s,
        None => {
            proof {
                assert(false);
            }
            String::new()
        },
    }
}

/// Relies on `String::from_utf8`: it succeeds exactly on valid UTF-8
/// input and returns the character sequence that the bytes encode.
#[verifier::external_body]
pub(crate) fn bytes_to_text(bytes: Vec<u8>) -> (r: Option<String>)
    ensures
        match r {
            Some(s) => vstd::utf8::valid_utf8(bytes@) && s@ == vstd::utf8::decode_utf8(bytes@),
            None => !vstd::utf8::valid_utf8(bytes@),
        },
{
    String::from_utf8(bytes).ok()
}

/// Replacement of every left-to-right, non-overlapping occurrence of
/// `pat` in `s` with `rep`; replaced text is not rescanned. For a
/// non-empty pattern this is what `str::replace` computes, since UTF-8
/// byte matches can only start at character boundaries.
pub open spec fn replace_seq(s: Seq<char>, pat: Seq<char>, rep: Seq<char>) -> Seq<char>
    decreases s.len(),
{
    if pat.len() == 0 || s.len() < pat.len() {
        s
    } else if s.take(pat.len() as int) == pat {
        rep + replace_seq(s.skip(pat.len() as int), pat, rep)
    } else {
        seq![s[0]] + replace_seq(s.drop_first(), pat, rep)
    }
}

/// Relies on `str::replace`: replaces every match of the pattern,
/// scanning left to right without rescanning replacements.
#[verifier::external_body]
fn str_replace(s: &str, pat: &str, rep: &str) -> (r: String)
    requires
        pat@.len() > 0,
    ensures
        r@ == replace_seq(s@, pat@, rep@),
{
    s.replace(pat, rep)
}

/// Basic SQL-text sanitization: doubles single quotes and strips
/// statement separators and comment markers.
pub fn sanitize_sql(input: &str) -> (r: String)
    ensures
        r@ == replace_seq(
            replace_seq(
                replace_seq(replace_seq(replace_seq(input@, "'"@, "''"@), ";"@, ""@), "--"@, ""@),
                "/*"@,
                ""@,
            ),
            "*/"@,
            ""@,
        ),
{
    proof {
        reveal_strlit("'");
        reveal_strlit(";");
        reveal_strlit("--");
        reveal_strlit("/*");
        reveal_strlit("*/");
    }
    let a = str_replace(input, "'", "''");
    let b = str_replace(a.as_str(), ";", "");
    let c = str_replace(b.as_str(), "--", "");
    let d = str_replace(c.as_str(), "/*", "");
    str_replace(d.as_str(), "*/", "")
}

/// What `char::is_alphanumeric` returns: a fact of the character alone.
pub uninterp spec fn char_is_alphanumeric(c: char) -> bool;

/// Relies on `char::is_alphanumeric`: the result depends on the
/// character alone (a Unicode property lookup).
#[verifier::external_body]
fn char_alnum(c: char) -> (r: bool)
    ensures
        r == char_is_alphanumeric(c),
{
    c.is_alphanumeric()
}

/// A usable table or column name: non-empty, every character
/// alphanumeric or an underscore.
pub open spec fn valid_identifier(s: Seq<char>) -> bool {
    s.len() > 0 && forall|i: int|
        0 <= i < s.len() ==> char_is_alphanumeric(#[trigger] s[i]) || s[i] == '_'
}

/// Accepts exactly the valid identifiers as table names.
pub fn validate_table_name(name: &str) -> (r: Result<(), DbError>)
    ensures
        r is Ok <==> valid_identifier(name@),
        r matches Err(e) ==> e matches DbError::ValidationError(_),
{
    let n = name.unicode_len();
    if n == 0 {
        return Err(DbError::ValidationError(String::from_str("Table name cannot be empty")));
    }
    let mut i: usize = 0;
    while i < n
        invariant
            0 <= i <= n,
            n == name@.len(),
            forall|k: int|
                0 <= k < i ==> char_is_alphanumeric(#[trigger] name@[k]) || name@[k] == '_',
        decreases n - i,
    {
        let c = name.get_char(i);
        if !(char_alnum(c) || c == '_') {
            return Err(
                DbError::ValidationError(
                    String::from_str("Table name contains invalid characters"),
                ),
            );
        }
        i = i + 1;
    }
    Ok(())
}

/// Accepts exactly the valid identifiers as column names.
pub fn validate_column_name(name: &str) -> (r: Result<(), DbError>)
    ensures
        r is Ok <==> valid_identifier(name@),
        r matches Err(e) ==> e matches DbError::ValidationError(_),
{
    let n = name.unicode_len();
    if n == 0 {
        return Err(DbError::ValidationError(String::from_str("Column name cannot be empty")));
    }
    let mut i: usize = 0;
    while i < n
        invariant
            0 <= i <= n,
            n == name@.len(),
            forall|k: int|
                0 <= k < i ==> char_is_alphanumeric(#[trigger] name@[k]) || name@[k] == '_',
        decreases n - i,
    {
        let c = name.get_char(i);
        if !(char_alnum(c) || c == '_') {
            return Err(
                DbError::ValidationError(
                    String::from_str("Column name contains invalid characters"),
                ),
            );
        }
        i = i + 1;
    }
    Ok(())
}

/// A database user: name, stored credential hash, and granted roles.
#[derive(Debug)]
pub struct User {
    pub username: String,
    pub password_hash: String,
    pub roles: Vec<String>,
}

/// The security context: the current user and the permissions each role
/// grants, as a role-keyed list with distinct keys.
#[derive(Debug)]
pub struct SecurityContext {
    pub current_user: Option<User>,
    pub permissions: Vec<(String, Vec<String>)>,
}

/// Whether some string of `v` reads `s`.
pub open spec fn strings_contain(v: Seq<String>, s: Seq<char>) -> bool {
    exists|i: int| 0 <= i < v.len() && v[i]@ == s
}

impl SecurityContext {
    /// Permission keys (role names) are pairwise distinct.
    pub open spec fn wf(self) -> bool {
        forall|i: int, j: int|
            0 <= i < j < self.permissions@.len() ==> self.permissions@[i].0@
                != self.permissions@[j].0@
    }

    /// Whether the current user holds a role whose permission list
    /// includes the operation.
    pub open spec fn spec_has_permission(self, operation: Seq<char>) -> bool {
        match self.current_user {
            Option::None => false,
            Option::Some(u) => exists|i: int, j: int|
                0 <= i < u.roles@.len() && 0 <= j < self.permissions@.len()
                    && self.permissions@[j].0@ == u.roles@[i]@ && strings_contain(
                    self.permissions@[j].1@,
                    operation,
                ),
        }
    }

    /// A context with no user and no permissions.
    pub fn new() -> (r: SecurityContext)
        ensures
            r.wf(),
            r.current_user is None,
            r.permissions@.len() == 0,
    {
        SecurityContext { current_user: None, permissions: Vec::new() }
    }

    /// Whether the current user may perform the operation: some role of
    /// the user grants it. Without a user nothing is permitted.
    pub fn has_permission(&self, operation: &str) -> (r: bool)
        requires
            self.wf(),
        ensures
            r == self.spec_has_permission(operation@),
    {
        let user = match &self.current_user {
            Some(u) => u,
            None => {
                return false;
            },
        };
        let nroles = user.roles.len();
        let nperm = self.permissions.len();
        let mut i: usize = 0;
        while i < nroles
            invariant
                self.wf(),
                self.current_user matches Some(u) && u == user,
                nroles == user.roles@.len(),
                nperm == self.permissions@.len(),
                0 <= i <= nroles,
                forall|a: int, b: int|
                    #![trigger user.roles@[a], self.permissions@[b]]
                    0 <= a < i && 0 <= b < nperm && self.permissions@[b].0@ == user.roles@[a]@
                        ==> !strings_contain(self.permissions@[b].1@, operation@),
            decreases nroles - i,
        {
            let mut j: usize = 0;
            while j < nperm
                invariant
                    self.wf(),
                    self.current_user matches Some(u) && u == user,
                    i < nroles,
                    nroles == user.roles@.len(),
                    nperm == self.permissions@.len(),
                    0 <= j <= nperm,
                    forall|a: int, b: int|
                        #![trigger user.roles@[a], self.permissions@[b]]
                        0 <= a < i && 0 <= b < nperm && self.permissions@[b].0@ == user.roles@[a]@
                            ==> !strings_contain(self.permissions@[b].1@, operation@),
                    forall|b: int|
                        0 <= b < j && self.permissions@[b].0@ == user.roles@[i as int]@
                            ==> !strings_contain((#[trigger] self.permissions@[b]).1@, operation@),
                decreases nperm - j,
            {
                if str_eq(self.permissions[j].0.as_str(), user.roles[i].as_str()) {
                    let perms = &self.permissions[j].1;
                    let np = perms.len();
                    let mut k: usize = 0;
                    while k < np
                        invariant
                            self.wf(),
                            self.current_user matches Some(u) && u == user,
                            i < nroles,
                            nroles == user.roles@.len(),
                            j < nperm,
                            nperm == self.permissions@.len(),
                            self.permissions@[j as int].0@ == user.roles@[i as int]@,
                            *perms == self.permissions@[j as int].1,
                            np == perms@.len(),
                            0 <= k <= np,
                            forall|t: int| 0 <= t < k ==> (#[trigger] perms@[t])@ != operation@,
                        decreases np - k,
                    {
                        if str_eq(perms[k].as_str(), operation) {
                            proof {
                                assert(perms@[k as int]@ == operation@);
                                assert(strings_contain(self.permissions@[j as int].1@, operation@));
                                assert(self.spec_has_permission(operation@)) by {
                                    assert((i as int) < user.roles@.len());
                                    assert((j as int) < self.permissions@.len());
                                    let ri = user.roles@[i as int]@;
                                    assert(self.permissions@[j as int].0@ == ri);
                                }
                            }
                            return true;
                        }
                        k = k + 1;
                    }
                    proof {
                        assert(!strings_contain(self.permissions@[j as int].1@, operation@));
                    }
                }
                j = j + 1;
            }
            i = i + 1;
        }
        proof {
            assert(!self.spec_has_permission(operation@));
        }
        false
    }
}

} // verus!
