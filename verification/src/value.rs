//! The tagged value codec: the self-describing byte format in which typed
//! values are persisted.
//!
//! The first byte of an encoding names the variant; the remaining bytes are
//! the payload. Fixed-width payloads are little-endian — the native order
//! of every platform the store targets, written down so the format stays
//! one thing everywhere. Decoding is total:
//! an unrecognized tag or a payload whose length does not fit the tag is
//! reported as a data error, never a panic.

use vstd::bytes::{spec_u64_from_le_bytes, spec_u64_to_le_bytes, u64_from_le_bytes, u64_to_le_bytes};
use vstd::prelude::*;
use vstd::slice::{slice_index_get, slice_subrange, slice_to_vec};
use vstd::string::StringSliceAdditionalSpecFns;
use vstd::utf8::{decode_utf8, encode_utf8, encode_utf8_decode_utf8, valid_utf8};

verus! {

/// Tag byte for `Value::Null`.
pub const TAG_NULL: u8 = 0;

/// Tag byte for `Value::Bool`.
pub const TAG_BOOL: u8 = 1;

/// Tag byte for `Value::I64`.
pub const TAG_I64: u8 = 2;

/// Tag byte for `Value::F64`.
pub const TAG_F64: u8 = 3;

/// Tag byte for `Value::Str`.
pub const TAG_STR: u8 = 4;

/// Tag byte for `Value::Blob`.
pub const TAG_BLOB: u8 = 5;

/// A typed value as stored under a key.
///
/// Doubles are carried as their IEEE-754 bit pattern, so the stored
/// representation is exact and the codec never rounds; callers that work
/// with native doubles convert to and from bits at the boundary.
#[derive(Clone, Debug, PartialEq, Eq)]
pub enum Value {
    Null,
    Bool(bool),
    I64(i64),
    F64(u64),
    Str(String),
    Blob(Vec<u8>),
}

/// The mathematical model of a [`Value`]: payloads as sequences.
pub enum ValueView {
    Null,
    Bool(bool),
    I64(i64),
    F64(u64),
    Str(Seq<char>),
    Blob(Seq<u8>),
}

impl View for Value {
    type V = ValueView;

    open spec fn view(&self) -> ValueView {
        match self {
            Value::Null => ValueView::Null,
            Value::Bool(b) => ValueView::Bool(*b),
            Value::I64(x) => ValueView::I64(*x),
            Value::F64(bits) => ValueView::F64(*bits),
            Value::Str(s) => ValueView::Str(s@),
            Value::Blob(b) => ValueView::Blob(b@),
        }
    }
}

/// The host-side data type tags that values convert to and from at the
/// variant boundary; the numbers are the host's, fixed by its interface.
#[allow(non_camel_case_types)]
#[derive(Clone, Copy, Debug, PartialEq, Eq, Structural)]
pub enum DataType {
    INT32,
    DOUBLE,
    BOOL,
    VOID,
    WSTRING,
    EMPTY,
}

impl DataType {
    /// The numeric tag the host uses for this data type.
    pub fn code(&self) -> (r: u16)
        ensures
            r == match self {
                DataType::INT32 => 2u16,
                DataType::DOUBLE => 9u16,
                DataType::BOOL => 10u16,
                DataType::VOID => 13u16,
                DataType::WSTRING => 21u16,
                DataType::EMPTY => 255u16,
            },
    {
        match self {
            DataType::INT32 => 2,
            DataType::DOUBLE => 9,
            DataType::BOOL => 10,
            DataType::VOID => 13,
            DataType::WSTRING => 21,
            DataType::EMPTY => 255,
        }
    }

    /// The data type for a numeric tag, when it is one this library
    /// handles.
    pub fn from_code(code: u16) -> (r: Option<DataType>)
        ensures
            match r {
                Some(t) => t.code_spec() == code,
                None => code != 2 && code != 9 && code != 10 && code != 13 && code != 21 && code
                    != 255,
            },
    {
        match code {
            2 => Some(DataType::INT32),
            9 => Some(DataType::DOUBLE),
            10 => Some(DataType::BOOL),
            13 => Some(DataType::VOID),
            21 => Some(DataType::WSTRING),
            255 => Some(DataType::EMPTY),
            _ => None,
        }
    }

    /// The numeric tag, as specification.
    pub open spec fn code_spec(&self) -> u16 {
        match self {
            DataType::INT32 => 2u16,
            DataType::DOUBLE => 9u16,
            DataType::BOOL => 10u16,
            DataType::VOID => 13u16,
            DataType::WSTRING => 21u16,
            DataType::EMPTY => 255u16,
        }
    }
}

/// A malformed stored encoding.
///
/// `UnknownType` carries the unrecognized tag byte; `DecodingError` covers a
/// payload whose length or contents do not fit the tag.
#[derive(Clone, Copy, Debug, PartialEq, Eq, Structural)]
pub enum DataError {
    UnknownType(u8),
    DecodingError,
}

/// The byte encoding of a value: one tag byte, then the payload.
pub open spec fn spec_encode(v: ValueView) -> Seq<u8> {
    match v {
        ValueView::Null => seq![TAG_NULL],
        ValueView::Bool(b) => seq![TAG_BOOL, if b { 1u8 } else { 0u8 }],
        ValueView::I64(x) => seq![TAG_I64] + spec_u64_to_le_bytes(x as u64),
        ValueView::F64(bits) => seq![TAG_F64] + spec_u64_to_le_bytes(bits),
        ValueView::Str(s) => seq![TAG_STR] + encode_utf8(s),
        ValueView::Blob(b) => seq![TAG_BLOB] + b,
    }
}

/// What decoding a byte sequence yields: the decoded value, or the data
/// error that the bytes deserve.
pub open spec fn spec_decode(bytes: Seq<u8>) -> Result<ValueView, DataError> {
    if bytes.len() == 0 {
        Err(DataError::DecodingError)
    } else {
        let tag = bytes[0];
        let payload = bytes.drop_first();
        if tag == TAG_NULL {
            if payload.len() == 0 {
                Ok(ValueView::Null)
            } else {
                Err(DataError::DecodingError)
            }
        } else if tag == TAG_BOOL {
            if payload.len() == 1 && payload[0] <= 1 {
                Ok(ValueView::Bool(payload[0] == 1))
            } else {
                Err(DataError::DecodingError)
            }
        } else if tag == TAG_I64 {
            if payload.len() == 8 {
                Ok(ValueView::I64(spec_u64_from_le_bytes(payload) as i64))
            } else {
                Err(DataError::DecodingError)
            }
        } else if tag == TAG_F64 {
            if payload.len() == 8 {
                Ok(ValueView::F64(spec_u64_from_le_bytes(payload)))
            } else {
                Err(DataError::DecodingError)
            }
        } else if tag == TAG_STR {
            if valid_utf8(payload) {
                Ok(ValueView::Str(decode_utf8(payload)))
            } else {
                Err(DataError::DecodingError)
            }
        } else if tag == TAG_BLOB {
            Ok(ValueView::Blob(payload))
        } else {
            Err(DataError::UnknownType(tag))
        }
    }
}

/// Relies on `core::str::from_utf8`: succeeds exactly on valid UTF-8 and
/// returns the string slice over those same bytes.
pub assume_specification[ core::str::from_utf8 ](v: &[u8]) -> (res: Result<&str, core::str::Utf8Error>)
    ensures
        res matches Ok(s) ==> valid_utf8(v@) && s.spec_bytes() == v@,
        res is Err ==> !valid_utf8(v@),
;

#[verifier::external_type_specification]
#[verifier::external_body]
pub struct ExUtf8Error(core::str::Utf8Error);

/// Encode a value into its tagged byte representation.
pub fn encode(v: &Value) -> (out: Vec<u8>)
    ensures
        out@ == spec_encode(v@),
{
    let mut out: Vec<u8> = Vec::new();
    match v {
        Value::Null => {
            out.push(TAG_NULL);
        },
        Value::Bool(b) => {
            out.push(TAG_BOOL);
            out.push(if *b { 1u8 } else { 0u8 });
        },
        Value::I64(x) => {
            out.push(TAG_I64);
            let mut payload = u64_to_le_bytes(*x as u64);
            out.append(&mut payload);
        },
        Value::F64(bits) => {
            out.push(TAG_F64);
            let mut payload = u64_to_le_bytes(*bits);
            out.append(&mut payload);
        },
        Value::Str(s) => {
            out.push(TAG_STR);
            out.extend_from_slice(s.as_str().as_bytes());
        },
        Value::Blob(b) => {
            out.push(TAG_BLOB);
            out.extend_from_slice(b.as_slice());
        },
    }
    proof {
        assert(out@ =~= spec_encode(v@));
    }
    out
}

/// Decode a tagged byte representation back into a value.
pub fn decode(bytes: &[u8]) -> (res: Result<Value, DataError>)
    ensures
        match res {
            Ok(v) => spec_decode(bytes@) == Ok::<ValueView, DataError>(v@),
            Err(e) => spec_decode(bytes@) == Err::<ValueView, DataError>(e),
        },
{
    if bytes.len() == 0 {
        return Err(DataError::DecodingError);
    }
    let tag = *slice_index_get(bytes, 0);
    let payload = slice_subrange(bytes, 1, bytes.len());
    proof {
        assert(payload@ =~= bytes@.drop_first());
    }
    if tag == TAG_NULL {
        if payload.len() == 0 {
            Ok(Value::Null)
        } else {
            Err(DataError::DecodingError)
        }
    } else if tag == TAG_BOOL {
        if payload.len() == 1 {
            let b = *slice_index_get(payload, 0);
            if b <= 1 {
                Ok(Value::Bool(b == 1))
            } else {
                Err(DataError::DecodingError)
            }
        } else {
            Err(DataError::DecodingError)
        }
    } else if tag == TAG_I64 {
        if payload.len() == 8 {
            let x = u64_from_le_bytes(payload);
            Ok(Value::I64(x as i64))
        } else {
            Err(DataError::DecodingError)
        }
    } else if tag == TAG_F64 {
        if payload.len() == 8 {
            let bits = u64_from_le_bytes(payload);
            Ok(Value::F64(bits))
        } else {
            Err(DataError::DecodingError)
        }
    } else if tag == TAG_STR {
        match core::str::from_utf8(payload) {
            Ok(s) => {
                proof {
                    broadcast use encode_utf8_decode_utf8;

                    assert(decode_utf8(payload@) == s@);
                }
                Ok(Value::Str(s.to_owned()))
            },
            Err(_) => Err(DataError::DecodingError),
        }
    } else if tag == TAG_BLOB {
        Ok(Value::Blob(slice_to_vec(payload)))
    } else {
        Err(DataError::UnknownType(tag))
    }
}

/// Law: the codec round-trips. Decoding the encoding of any value yields
/// that value back, for every variant and every payload.
pub proof fn lemma_codec_round_trip(v: ValueView)
    ensures
        spec_decode(spec_encode(v)) == Ok::<ValueView, DataError>(v),
{
    vstd::bytes::lemma_auto_spec_u64_to_from_le_bytes();
    broadcast use encode_utf8_decode_utf8;
    broadcast use vstd::utf8::encode_utf8_valid_utf8;

    let bytes = spec_encode(v);
    match v {
        ValueView::Null => {
            assert(bytes.drop_first() =~= Seq::<u8>::empty());
        },
        ValueView::Bool(b) => {
            assert(bytes.drop_first() =~= seq![if b { 1u8 } else { 0u8 }]);
        },
        ValueView::I64(x) => {
            assert(bytes.drop_first() =~= spec_u64_to_le_bytes(x as u64));
            assert(spec_u64_from_le_bytes(spec_u64_to_le_bytes(x as u64)) == x as u64);
            assert((x as u64) as i64 == x) by (bit_vector);
        },
        ValueView::F64(bits) => {
            assert(bytes.drop_first() =~= spec_u64_to_le_bytes(bits));
        },
        ValueView::Str(s) => {
            assert(bytes.drop_first() =~= encode_utf8(s));
        },
        ValueView::Blob(b) => {
            assert(bytes.drop_first() =~= b);
        },
    }
}

} // verus!
