//! The closed set of wire representation types and the width inference that
//! picks one from the range of resolved discriminants.

use vstd::prelude::*;

verus! {

/// A fixed-width integer type that a codec can use on the wire, partitioned
/// into an unsigned family and a signed family.
#[derive(Clone, Copy, Debug, PartialEq, Eq, Structural)]
pub enum ReprChoice {
    U8,
    U16,
    U32,
    I8,
    I16,
    I32,
}

impl ReprChoice {
    /// Smallest value the representation type can hold.
    pub open spec fn min_val(self) -> int {
        match self {
            ReprChoice::U8 => 0,
            ReprChoice::U16 => 0,
            ReprChoice::U32 => 0,
            ReprChoice::I8 => -128,
            ReprChoice::I16 => -32768,
            ReprChoice::I32 => -2147483648,
        }
    }

    /// Largest value the representation type can hold.
    pub open spec fn max_val(self) -> int {
        match self {
            ReprChoice::U8 => 255,
            ReprChoice::U16 => 65535,
            ReprChoice::U32 => 4294967295,
            ReprChoice::I8 => 127,
            ReprChoice::I16 => 32767,
            ReprChoice::I32 => 2147483647,
        }
    }

    /// Whether `v` is representable in this type.
    pub open spec fn in_range(self, v: int) -> bool {
        self.min_val() <= v <= self.max_val()
    }

    /// The value of `d` reinterpreted as this type, exactly as an `as` cast
    /// in the generated code reinterprets it: values in range are unchanged,
    /// values out of range are truncated to the type's width.
    pub open spec fn reinterpret(self, d: int) -> int {
        match self {
            ReprChoice::U8 => (d as u8) as int,
            ReprChoice::U16 => (d as u16) as int,
            ReprChoice::U32 => (d as u32) as int,
            ReprChoice::I8 => (d as i8) as int,
            ReprChoice::I16 => (d as i16) as int,
            ReprChoice::I32 => (d as i32) as int,
        }
    }

    /// Reinterpret a resolved discriminant as a wire value of this type.
    pub fn truncate_value(self, d: i128) -> (r: i64)
        ensures
            r as int == self.reinterpret(d as int),
            self.in_range(r as int),
    {
        match self {
            ReprChoice::U8 => (#[verifier::truncate] (d as u8)) as i64,
            ReprChoice::U16 => (#[verifier::truncate] (d as u16)) as i64,
            ReprChoice::U32 => (#[verifier::truncate] (d as u32)) as i64,
            ReprChoice::I8 => (#[verifier::truncate] (d as i8)) as i64,
            ReprChoice::I16 => (#[verifier::truncate] (d as i16)) as i64,
            ReprChoice::I32 => (#[verifier::truncate] (d as i32)) as i64,
        }
    }

    /// Whether this representation type belongs to the unsigned family.
    pub open spec fn unsigned(self) -> bool {
        match self {
            ReprChoice::U8 => true,
            ReprChoice::U16 => true,
            ReprChoice::U32 => true,
            ReprChoice::I8 => false,
            ReprChoice::I16 => false,
            ReprChoice::I32 => false,
        }
    }

    /// The source-level name of the representation type.
    pub open spec fn name_spec(self) -> Seq<char> {
        match self {
            ReprChoice::U8 => "u8"@,
            ReprChoice::U16 => "u16"@,
            ReprChoice::U32 => "u32"@,
            ReprChoice::I8 => "i8"@,
            ReprChoice::I16 => "i16"@,
            ReprChoice::I32 => "i32"@,
        }
    }

    /// The source-level name of the representation type, e.g. `"u8"`.
    pub fn name(&self) -> (r: String)
        ensures
            r@ == self.name_spec(),
    {
        match self {
            ReprChoice::U8 => "u8".to_owned(),
            ReprChoice::U16 => "u16".to_owned(),
            ReprChoice::U32 => "u32".to_owned(),
            ReprChoice::I8 => "i8".to_owned(),
            ReprChoice::I16 => "i16".to_owned(),
            ReprChoice::I32 => "i32".to_owned(),
        }
    }
}

/// The width that inference picks for the discriminant range `[lo, hi]`,
/// where `lo` is the first and `hi` the last resolved discriminant in
/// declaration order. The unsigned family is chosen when `lo >= 0`, the
/// signed family otherwise; within the family, the narrowest width whose
/// range `[typeMin, typeMax]` satisfies `typeMin <= lo && hi <= typeMax`
/// wins, and `None` means that no supported width accommodates the range.
pub open spec fn infer_spec(lo: int, hi: int) -> Option<ReprChoice> {
    if lo >= 0 {
        if hi <= 255 {
            Some(ReprChoice::U8)
        } else if hi <= 65535 {
            Some(ReprChoice::U16)
        } else if hi <= 4294967295 {
            Some(ReprChoice::U32)
        } else {
            None
        }
    } else {
        if -128 <= lo && hi <= 127 {
            Some(ReprChoice::I8)
        } else if -32768 <= lo && hi <= 32767 {
            Some(ReprChoice::I16)
        } else if -2147483648 <= lo && hi <= 2147483647 {
            Some(ReprChoice::I32)
        } else {
            None
        }
    }
}

/// The width that inference settles on comes from the unsigned family
/// exactly when the first resolved discriminant is nonnegative; its range
/// covers `[lo, hi]`; and it is the narrowest width of its family that does.
pub proof fn lemma_infer_narrowest(lo: int, hi: int, c: ReprChoice)
    requires
        infer_spec(lo, hi) == Some(c),
    ensures
        c.unsigned() == (lo >= 0),
        c.min_val() <= lo && hi <= c.max_val(),
        c == ReprChoice::U16 ==> hi > 255,
        c == ReprChoice::U32 ==> hi > 65535,
        c == ReprChoice::I16 ==> (lo < -128 || hi > 127),
        c == ReprChoice::I32 ==> (lo < -32768 || hi > 32767),
{
}

/// Inference fails exactly when the range `[lo, hi]` exceeds the 32-bit
/// bounds of the chosen family, that is, when only a 64-bit or wider type
/// could accommodate it.
pub proof fn lemma_unsupported_range(lo: int, hi: int)
    ensures
        (infer_spec(lo, hi) is None) == if lo >= 0 {
            hi > 4294967295
        } else {
            lo < -2147483648 || hi > 2147483647
        },
{
}

/// Infer the narrowest representation type for the range `[lo, hi]`, trying
/// the widths of the chosen family in ascending order.
pub fn infer(lo: i128, hi: i128) -> (r: Option<ReprChoice>)
    ensures
        r == infer_spec(lo as int, hi as int),
{
    if lo >= 0 {
        if hi <= 255 {
            Some(ReprChoice::U8)
        } else if hi <= 65535 {
            Some(ReprChoice::U16)
        } else if hi <= 4294967295 {
            Some(ReprChoice::U32)
        } else {
            None
        }
    } else {
        if -128 <= lo && hi <= 127 {
            Some(ReprChoice::I8)
        } else if -32768 <= lo && hi <= 32767 {
            Some(ReprChoice::I16)
        } else if -2147483648 <= lo && hi <= 2147483647 {
            Some(ReprChoice::I32)
        } else {
            None
        }
    }
}

} // verus!
