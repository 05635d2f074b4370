use crate::scan_value::ScanValueType;
use vstd::prelude::*;

verus! {

/// The type that follows `t` when the user cycles through the types; after
/// `Double` comes a string (of length zero), and after a string, `Byte` again.
pub open spec fn next_type(t: ScanValueType) -> ScanValueType {
    match t {
        ScanValueType::Byte => ScanValueType::Word,
        ScanValueType::Word => ScanValueType::DWord,
        ScanValueType::DWord => ScanValueType::QWord,
        ScanValueType::QWord => ScanValueType::Float,
        ScanValueType::Float => ScanValueType::Double,
        ScanValueType::Double => ScanValueType::String(0),
        ScanValueType::String(_) => ScanValueType::Byte,
    }
}

/// The description shown for each type.
pub open spec fn type_text(t: ScanValueType) -> Seq<char> {
    match t {
        ScanValueType::Byte => "Byte    | 1 byte  | 8  bits"@,
        ScanValueType::Word => "Word    | 2 bytes | 16 bits"@,
        ScanValueType::DWord => "DWord   | 4 bytes | 32 bits"@,
        ScanValueType::QWord => "QWord   | 8 bytes | 64 bits"@,
        ScanValueType::Float => "Float   | 4 bytes | 32 bits"@,
        ScanValueType::Double => "Double  | 8 bytes | 64 bits"@,
        ScanValueType::String(_) => "String  | any"@,
    }
}

/// The widget where the user picks the type of the value to scan for.
pub struct TypeSelector {
    pub selected: ScanValueType,
}

impl TypeSelector {
    /// A selector on `Byte`.
    pub fn new() -> (r: TypeSelector)
        ensures
            r.selected == ScanValueType::Byte,
    {
        Self { selected: ScanValueType::Byte }
    }

    /// Moves to the next type.
    pub fn cycle_type(&mut self)
        ensures
            final(self).selected == next_type(old(self).selected),
    {
        self.selected = match self.selected {
            ScanValueType::Byte => ScanValueType::Word,
            ScanValueType::Word => ScanValueType::DWord,
            ScanValueType::DWord => ScanValueType::QWord,
            ScanValueType::QWord => ScanValueType::Float,
            ScanValueType::Float => ScanValueType::Double,
            ScanValueType::Double => ScanValueType::String(0),
            ScanValueType::String(_) => ScanValueType::Byte,
        }
    }

    /// The description of the selected type.
    pub fn get_text(&self) -> (r: &'static str)
        ensures
            r@ == type_text(self.selected),
    {
        match self.selected {
            ScanValueType::Byte => "Byte    | 1 byte  | 8  bits",
            ScanValueType::Word => "Word    | 2 bytes | 16 bits",
            ScanValueType::DWord => "DWord   | 4 bytes | 32 bits",
            ScanValueType::QWord => "QWord   | 8 bytes | 64 bits",
            ScanValueType::Float => "Float   | 4 bytes | 32 bits",
            ScanValueType::Double => "Double  | 8 bytes | 64 bits",
            ScanValueType::String(_) => "String  | any",
        }
    }
}

/// Cycling seven times goes through every type and back to the start; a string
/// type comes back with length zero.
pub proof fn lemma_cycle_returns(t: ScanValueType)
    ensures
        next_type(next_type(next_type(next_type(next_type(next_type(next_type(t))))))) == (
        match t {
            ScanValueType::String(_) => ScanValueType::String(0),
            _ => t,
        }),
{
}

} // verus!
