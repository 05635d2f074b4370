use crate::scan_value::{
    lemma_value_bytes_len, lemma_write_then_read, value_bytes, value_from_bytes, value_type, ScanValue, ScanValueType,
    ScanValueView,
};
use vstd::prelude::*;
use vstd::utf8::encode_utf8;

verus! {

/// An address in the memory of a process, and the type of the value kept there.
#[derive(Clone, Copy, Debug, PartialEq, Eq, Structural)]
pub struct MemoryAddress {
    pub pid: i32,
    pub address: usize,
    pub val_type: ScanValueType,
}

/// Why a new value cannot be written at an address.
#[derive(Clone, Copy, Debug, PartialEq, Eq, Structural)]
pub enum SetValueError {
    /// The new string is longer than the string kept at the address.
    StringTooLong,
}

/// Why a read of memory cannot be compared with a pattern.
#[derive(Clone, Copy, Debug, PartialEq, Eq, Structural)]
pub enum MatchError {
    /// The read did not return as many bytes as the pattern has.
    ReadCountMismatch,
}

/// Compares two byte slices.
pub fn bytes_eq(a: &[u8], b: &[u8]) -> (r: bool)
    ensures
        r == (a@ == b@),
{
    if a.len() != b.len() {
        return false;
    }
    let mut i: usize = 0;
    while i < a.len()
        invariant
            a.len() == b.len(),
            i <= a.len(),
            forall|k: int| 0 <= k < i ==> a@[k] == b@[k],
        decreases a.len() - i,
    {
        if a[i] != b[i] {
            return false;
        }
        i = i + 1;
    }
    assert(a@ =~= b@);
    true
}

/// When a new value must not overwrite the value at an address of type
/// `pinned`: a string longer than the string kept there.
pub open spec fn new_value_too_long(pinned: ScanValueType, value: ScanValueView) -> bool {
    &&& value is String
    &&& pinned is String
    &&& value_bytes(value).len() > pinned.spec_len()
}

impl MemoryAddress {
    pub fn new(pid: i32, address: usize, val_type: ScanValueType) -> (r: Self)
        ensures
            r == (MemoryAddress { pid, address, val_type }),
    {
        Self { pid, address, val_type }
    }

    /// Compares the bytes read at this address with `pat`. `buf` is the buffer,
    /// as long as `pat`, that the read of `read_count` bytes filled; a read that
    /// did not return as many bytes as `pat` has is reported as an error, as
    /// the error's name says ("read count didn't match pattern length").
    pub fn matches(&self, pat: &[u8], buf: &[u8], read_count: usize) -> (r: Result<
        bool,
        MatchError,
    >)
        requires
            buf.len() == pat.len(),
        ensures
            read_count != pat.len() ==> r == Err::<bool, MatchError>(MatchError::ReadCountMismatch),
            read_count == pat.len() ==> r == Ok::<bool, MatchError>(buf@ == pat@),
    {
        if read_count != pat.len() {
            return Err(MatchError::ReadCountMismatch);
        }
        Ok(bytes_eq(buf, pat))
    }

    /// Checks that `value` may be written at this address and gives the bytes
    /// to write there. A string may replace a string that is not shorter than
    /// it; any other value must have the address's own type.
    pub fn set_value(&self, value: &ScanValue) -> (r: Result<Vec<u8>, SetValueError>)
        requires
            !(value@ is String && self.val_type is String) ==> self.val_type == value_type(value@),
        ensures
            match r {
                Ok(bytes) => !new_value_too_long(self.val_type, value@) && bytes@ == value_bytes(
                    value@,
                ),
                Err(e) => new_value_too_long(self.val_type, value@) && e
                    == SetValueError::StringTooLong,
            },
            value@ matches ScanValueView::String(s) ==> (self.val_type matches ScanValueType::String(
                n,
            ) ==> (r is Ok <==> encode_utf8(s).len() <= n)),
            r matches Ok(bytes) ==> (value@ is String && self.val_type is String ==> bytes@.len()
                <= self.val_type.spec_len()),
            r matches Ok(bytes) ==> (!(value@ is String && self.val_type is String) ==> bytes@.len()
                == self.val_type.spec_len()),
    {
        proof {
            lemma_new_string_fits(self.val_type, value@);
            lemma_value_bytes_len(value@);
        }
        if let ScanValue::String(_) = value {
            if let ScanValueType::String(_) = self.val_type {
                if value.len() > self.val_type.len() {
                    return Err(SetValueError::StringTooLong);
                }
            }
        }
        Ok(value.as_bytes())
    }
}

/// A string may be written over a string exactly when its UTF-8 encoding is
/// no longer, in bytes, than the string kept there; so what is written never
/// runs past the pinned string's bytes.
pub proof fn lemma_new_string_fits(pinned: ScanValueType, value: ScanValueView)
    ensures
        value matches ScanValueView::String(s) ==> (pinned matches ScanValueType::String(n) ==> (
        new_value_too_long(pinned, value) <==> encode_utf8(s).len() > n)),
        !new_value_too_long(pinned, value) && value is String && pinned is String ==> value_bytes(
            value,
        ).len() <= pinned.spec_len(),
{
}

/// Editing a pinned address and reading it back: the bytes that [`MemoryAddress::set_value`]
/// gives for a value, read as the address's type, are that value again.
pub proof fn lemma_edit_then_read(pinned: ScanValueType, value: ScanValueView)
    requires
        !(value is String && pinned is String) ==> pinned == value_type(value),
    ensures
        value_from_bytes(value_bytes(value), pinned) == Some(value),
{
    lemma_write_then_read(value);
}

} // verus!
