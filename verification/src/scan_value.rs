use crate::little_endian::{
    from_le_bytes, le_bytes, le_value, lemma_le_bytes_len, lemma_le_bytes_of_value,
    lemma_le_value_bound, lemma_le_value_of_bytes, pow256, to_le_bytes,
};
use vstd::prelude::*;
use vstd::slice::slice_to_vec;
use vstd::string::StringSliceAdditionalSpecFns;
use vstd::utf8::*;

verus! {

/// The kind of value that a scan looks for, and how many bytes it takes in memory.
/// A string type carries its length in bytes.
#[derive(Clone, Copy, Debug, PartialEq, Eq, Structural)]
pub enum ScanValueType {
    Byte,
    Word,
    DWord,
    QWord,
    Float,
    Double,
    String(usize),
}

/// A value to search for in, or write to, another process's memory.
/// `Float` and `Double` hold the IEEE 754 bit pattern of the number.
/// Numbers lie in memory least significant byte first: this is the order of
/// little-endian machines (x86-64, and ARM as Linux runs it); on a big-endian
/// machine the bytes in memory would be the other way round.
#[derive(Debug)]
pub enum ScanValue {
    Byte(u8),
    Word(u16),
    DWord(u32),
    QWord(u64),
    Float(u32),
    Double(u64),
    String(String),
}

/// The mathematical model of a [`ScanValue`]: a string is its sequence of characters.
pub enum ScanValueView {
    Byte(u8),
    Word(u16),
    DWord(u32),
    QWord(u64),
    Float(u32),
    Double(u64),
    String(Seq<char>),
}

impl View for ScanValue {
    type V = ScanValueView;

    open spec fn view(&self) -> ScanValueView {
        match self {
            ScanValue::Byte(n) => ScanValueView::Byte(*n),
            ScanValue::Word(n) => ScanValueView::Word(*n),
            ScanValue::DWord(n) => ScanValueView::DWord(*n),
            ScanValue::QWord(n) => ScanValueView::QWord(*n),
            ScanValue::Float(n) => ScanValueView::Float(*n),
            ScanValue::Double(n) => ScanValueView::Double(*n),
            ScanValue::String(s) => ScanValueView::String(s@),
        }
    }
}

/// Why bytes could not be read back as a value of a given type.
#[derive(Clone, Copy, Debug, PartialEq, Eq, Structural)]
pub enum ConvertError {
    /// The number of bytes differs from the size of the numeric type.
    WrongLength,
    /// The bytes are not valid UTF-8.
    InvalidUtf8,
}

impl ScanValueType {
    /// Size in bytes of a value of this type.
    pub open spec fn spec_len(self) -> nat {
        match self {
            ScanValueType::Byte => 1,
            ScanValueType::Word => 2,
            ScanValueType::DWord => 4,
            ScanValueType::QWord => 8,
            ScanValueType::Float => 4,
            ScanValueType::Double => 8,
            ScanValueType::String(n) => n as nat,
        }
    }

    /// Size in bytes of a value of this type.
    pub fn len(&self) -> (r: usize)
        ensures
            r == self.spec_len(),
    {
        match self {
            ScanValueType::Byte => 1,
            ScanValueType::Word => 2,
            ScanValueType::DWord => 4,
            ScanValueType::QWord => 8,
            ScanValueType::Float => 4,
            ScanValueType::Double => 8,
            ScanValueType::String(x) => *x,
        }
    }
}

/// The little-endian bytes of a value; a string is its UTF-8 encoding.
/// (Little-endian is the order of the machines this tool reads; see [`ScanValue`].)
pub open spec fn value_bytes(v: ScanValueView) -> Seq<u8> {
    match v {
        ScanValueView::Byte(n) => le_bytes(n as nat, 1),
        ScanValueView::Word(n) => le_bytes(n as nat, 2),
        ScanValueView::DWord(n) => le_bytes(n as nat, 4),
        ScanValueView::QWord(n) => le_bytes(n as nat, 8),
        ScanValueView::Float(n) => le_bytes(n as nat, 4),
        ScanValueView::Double(n) => le_bytes(n as nat, 8),
        ScanValueView::String(s) => encode_utf8(s),
    }
}

/// The type of a value; a string's type carries its length in bytes.
pub open spec fn value_type(v: ScanValueView) -> ScanValueType {
    match v {
        ScanValueView::Byte(_) => ScanValueType::Byte,
        ScanValueView::Word(_) => ScanValueType::Word,
        ScanValueView::DWord(_) => ScanValueType::DWord,
        ScanValueView::QWord(_) => ScanValueType::QWord,
        ScanValueView::Float(_) => ScanValueType::Float,
        ScanValueView::Double(_) => ScanValueType::Double,
        ScanValueView::String(s) => ScanValueType::String(encode_utf8(s).len() as usize),
    }
}

/// The value that `bytes` hold when read as type `t`, if any: a numeric type
/// needs exactly its size in bytes (little-endian); a string type takes any
/// valid UTF-8, whatever length it carries.
pub open spec fn value_from_bytes(bytes: Seq<u8>, t: ScanValueType) -> Option<ScanValueView> {
    match t {
        ScanValueType::String(_) => if valid_utf8(bytes) {
            Some(ScanValueView::String(decode_utf8(bytes)))
        } else {
            None
        },
        _ => if bytes.len() != t.spec_len() {
            None
        } else {
            Some(
                match t {
                    ScanValueType::Byte => ScanValueView::Byte(le_value(bytes) as u8),
                    ScanValueType::Word => ScanValueView::Word(le_value(bytes) as u16),
                    ScanValueType::DWord => ScanValueView::DWord(le_value(bytes) as u32),
                    ScanValueType::QWord => ScanValueView::QWord(le_value(bytes) as u64),
                    ScanValueType::Float => ScanValueView::Float(le_value(bytes) as u32),
                    _ => ScanValueView::Double(le_value(bytes) as u64),
                },
            )
        },
    }
}

/// The error that reading `t` from unsuitable bytes reports.
pub open spec fn convert_error_for(t: ScanValueType) -> ConvertError {
    match t {
        ScanValueType::String(_) => ConvertError::InvalidUtf8,
        _ => ConvertError::WrongLength,
    }
}

/// std's `str::from_utf8`: the string slice whose UTF-8 encoding is `bytes`,
/// or nothing when `bytes` are not valid UTF-8.
#[verifier::external_body]
fn str_from_utf8(bytes: &[u8]) -> (r: Option<&str>)
    ensures
        r is Some <==> valid_utf8(bytes@),
        r matches Some(s) ==> s.spec_bytes() == bytes@,
{
    std::str::from_utf8(bytes).ok()
}

impl ScanValueType {
    /// The type of a value; a string's type carries its length in bytes.
    pub fn from_value(value: &ScanValue) -> (r: ScanValueType)
        ensures
            r == value_type(value@),
    {
        match value {
            ScanValue::Byte(_) => ScanValueType::Byte,
            ScanValue::Word(_) => ScanValueType::Word,
            ScanValue::DWord(_) => ScanValueType::DWord,
            ScanValue::QWord(_) => ScanValueType::QWord,
            ScanValue::Float(_) => ScanValueType::Float,
            ScanValue::Double(_) => ScanValueType::Double,
            ScanValue::String(x) => ScanValueType::String(x.as_str().as_bytes().len()),
        }
    }
}

impl<'a> From<&'a ScanValue> for ScanValueType {
    fn from(value: &'a ScanValue) -> (r: ScanValueType) {
        ScanValueType::from_value(value)
    }
}

impl<'a> vstd::std_specs::convert::FromSpecImpl<&'a ScanValue> for ScanValueType {
    open spec fn obeys_from_spec() -> bool {
        true
    }

    open spec fn from_spec(value: &'a ScanValue) -> ScanValueType {
        value_type(value@)
    }
}

impl ScanValue {
    /// Reads bytes as a value of type `val_type` (little-endian for numbers,
    /// UTF-8 for strings).
    pub fn convert_from_bytes(bytes: &[u8], val_type: ScanValueType) -> (r: Result<
        ScanValue,
        ConvertError,
    >)
        ensures
            match r {
                Ok(v) => value_from_bytes(bytes@, val_type) == Some(v@),
                Err(e) => value_from_bytes(bytes@, val_type) is None && e == convert_error_for(
                    val_type,
                ),
            },
    {
        match val_type {
            ScanValueType::String(_) => {
                match str_from_utf8(bytes) {
                    Some(s) => {
                        proof {
                            decode_utf8_encode_utf8(bytes@);
                            encode_utf8_decode_utf8(s@);
                        }
                        Ok(ScanValue::String(s.to_owned()))
                    },
                    None => Err(ConvertError::InvalidUtf8),
                }
            },
            _ => {
                if bytes.len() != val_type.len() {
                    return Err(ConvertError::WrongLength);
                }
                let n = from_le_bytes(bytes);
                proof {
                    lemma_pow256_values();
                    lemma_le_value_bound(bytes@);
                }
                let v = match val_type {
                    ScanValueType::Byte => ScanValue::Byte(n as u8),
                    ScanValueType::Word => ScanValue::Word(n as u16),
                    ScanValueType::DWord => ScanValue::DWord(n as u32),
                    ScanValueType::QWord => ScanValue::QWord(n),
                    ScanValueType::Float => ScanValue::Float(n as u32),
                    _ => ScanValue::Double(n),
                };
                Ok(v)
            },
        }
    }

    /// The bytes of the value as it lies in memory: little-endian for numbers,
    /// UTF-8 for strings.
    pub fn as_bytes(&self) -> (r: Vec<u8>)
        ensures
            r@ == value_bytes(self@),
    {
        match self {
            ScanValue::Byte(n) => to_le_bytes(*n as u64, 1),
            ScanValue::Word(n) => to_le_bytes(*n as u64, 2),
            ScanValue::DWord(n) => to_le_bytes(*n as u64, 4),
            ScanValue::QWord(n) => to_le_bytes(*n, 8),
            ScanValue::Float(n) => to_le_bytes(*n as u64, 4),
            ScanValue::Double(n) => to_le_bytes(*n, 8),
            ScanValue::String(s) => slice_to_vec(s.as_str().as_bytes()),
        }
    }

    /// Size of the value in bytes.
    pub fn len(&self) -> (r: usize)
        ensures
            r == value_bytes(self@).len(),
            r == value_type(self@).spec_len(),
    {
        let r = match self {
            ScanValue::Byte(_) => 1,
            ScanValue::Word(_) => 2,
            ScanValue::DWord(_) => 4,
            ScanValue::QWord(_) => 8,
            ScanValue::Float(_) => 4,
            ScanValue::Double(_) => 8,
            ScanValue::String(x) => x.as_str().as_bytes().len(),
        };
        proof {
            lemma_value_bytes_len(self@);
        }
        r
    }
}

/// What a scan looks for: a value, in the memory of the process `pid`.
pub struct ScanSettings {
    pid: i32,
    value: ScanValue,
}

impl ScanSettings {
    pub fn new(pid: i32, value: ScanValue) -> (r: ScanSettings)
        ensures
            r.target_pid() == pid,
            r.target_value() == value@,
    {
        ScanSettings { pid, value }
    }

    /// The process to scan.
    pub closed spec fn target_pid(&self) -> i32 {
        self.pid
    }

    /// The value to look for.
    pub closed spec fn target_value(&self) -> ScanValueView {
        self.value@
    }

    /// The process to scan, by its pid.
    pub fn process(&self) -> (r: i32)
        ensures
            r == self.target_pid(),
    {
        self.pid
    }

    /// The value to look for.
    pub fn value(&self) -> (r: &ScanValue)
        ensures
            r@ == self.target_value(),
    {
        &self.value
    }
}

/// The bytes of a value are as many as its type says (for a string, as long
/// as its length in bytes fits in a `usize`).
pub proof fn lemma_value_bytes_len(v: ScanValueView)
    ensures
        (v matches ScanValueView::String(s) ==> encode_utf8(s).len() <= usize::MAX) ==> value_bytes(
            v,
        ).len() == value_type(v).spec_len(),
{
    match v {
        ScanValueView::Byte(n) => lemma_le_bytes_len(n as nat, 1),
        ScanValueView::Word(n) => lemma_le_bytes_len(n as nat, 2),
        ScanValueView::DWord(n) => lemma_le_bytes_len(n as nat, 4),
        ScanValueView::QWord(n) => lemma_le_bytes_len(n as nat, 8),
        ScanValueView::Float(n) => lemma_le_bytes_len(n as nat, 4),
        ScanValueView::Double(n) => lemma_le_bytes_len(n as nat, 8),
        ScanValueView::String(_) => {},
    }
}

/// The powers of 256 that the sizes of the numeric types give.
proof fn lemma_pow256_values()
    ensures
        pow256(1) == 0x100,
        pow256(2) == 0x10000,
        pow256(4) == 0x100000000,
        pow256(8) == 0x10000000000000000,
{
    reveal_with_fuel(pow256, 9);
}

/// Writing a value and reading its bytes back as its own type gives the value back.
pub proof fn lemma_write_then_read(v: ScanValueView)
    ensures
        value_from_bytes(value_bytes(v), value_type(v)) == Some(v),
{
    lemma_pow256_values();
    lemma_value_bytes_len(v);
    match v {
        ScanValueView::Byte(n) => lemma_le_value_of_bytes(n as nat, 1),
        ScanValueView::Word(n) => lemma_le_value_of_bytes(n as nat, 2),
        ScanValueView::DWord(n) => lemma_le_value_of_bytes(n as nat, 4),
        ScanValueView::QWord(n) => lemma_le_value_of_bytes(n as nat, 8),
        ScanValueView::Float(n) => lemma_le_value_of_bytes(n as nat, 4),
        ScanValueView::Double(n) => lemma_le_value_of_bytes(n as nat, 8),
        ScanValueView::String(s) => {
            encode_utf8_valid_utf8(s);
            encode_utf8_decode_utf8(s);
        },
    }
}

/// Bytes that read as a value are exactly that value's bytes, and the value
/// has the type that was asked for (a string, the length of the bytes read).
pub proof fn lemma_read_then_write(bytes: Seq<u8>, t: ScanValueType)
    requires
        value_from_bytes(bytes, t) is Some,
        bytes.len() <= usize::MAX,
    ensures
        value_bytes(value_from_bytes(bytes, t).unwrap()) == bytes,
        t !is String ==> value_type(value_from_bytes(bytes, t).unwrap()) == t,
        t is String ==> value_type(value_from_bytes(bytes, t).unwrap()) == ScanValueType::String(
            bytes.len() as usize,
        ),
{
    lemma_pow256_values();
    match t {
        ScanValueType::String(_) => {
            decode_utf8_encode_utf8(bytes);
        },
        _ => {
            lemma_le_value_bound(bytes);
            lemma_le_bytes_of_value(bytes);
        },
    }
}

} // verus!
