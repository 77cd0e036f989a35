//! Field descriptors of the inspector: the plain facts the core knows
//! about a field independent of any rendering — its display name, its
//! byte size, and its kind — together with the little-endian decoding
//! helper the hexadecimal cell view uses.

use vstd::bytes::{
    spec_u16_from_le_bytes, spec_u32_from_le_bytes, u16_from_le_bytes, u32_from_le_bytes,
};
use vstd::prelude::*;
use vstd::slice::slice_index_get;

verus! {

/// The kind of value a field displays.
#[derive(Debug, Clone, Copy, PartialEq, Eq, Structural)]
pub enum FieldKind {
    /// An undecoded 1-byte cell.
    Unk8,
    /// An undecoded 2-byte cell.
    Unk16,
    /// An undecoded 4-byte cell.
    Unk32,
    /// An undecoded 8-byte cell.
    Unk64,
    /// A pointer-sized cell followed as a string pointer.
    StrPtr,
}

impl FieldKind {
    /// The number of bytes a field of this kind occupies.
    pub open spec fn spec_size(self) -> usize {
        match self {
            FieldKind::Unk8 => 1,
            FieldKind::Unk16 => 2,
            FieldKind::Unk32 => 4,
            FieldKind::Unk64 => 8,
            FieldKind::StrPtr => 8,
        }
    }

    /// The number of bytes a field of this kind occupies.
    pub fn size(&self) -> (r: usize)
        ensures
            r == self.spec_size(),
    {
        match self {
            FieldKind::Unk8 => 1,
            FieldKind::Unk16 => 2,
            FieldKind::Unk32 => 4,
            FieldKind::Unk64 => 8,
            FieldKind::StrPtr => 8,
        }
    }
}

/// A field that follows a pointer-sized cell to a narrow string.
pub struct StringPointerField {
    name: String,
}

impl StringPointerField {
    /// The field's display name.
    pub closed spec fn spec_name(self) -> Seq<char> {
        self.name@
    }

    /// A new string-pointer field with the given display name.
    pub fn new(name: String) -> (r: Self)
        ensures
            r.spec_name() == name@,
    {
        StringPointerField { name }
    }

    /// The field's display name.
    pub fn name(&self) -> (r: Option<String>)
        ensures
            r matches Some(s) && s@ == self.spec_name(),
    {
        Some(self.name.clone())
    }

    /// The field's size: one pointer, 8 bytes.
    pub fn size(&self) -> (r: usize)
        ensures
            r == 8,
    {
        8
    }

    /// The field's kind.
    pub fn kind(&self) -> (r: FieldKind)
        ensures
            r == FieldKind::StrPtr,
    {
        FieldKind::StrPtr
    }
}

/// A field that follows a pointer-sized cell to a wide string.
pub struct WideStringPointerField {
    name: String,
}

impl WideStringPointerField {
    /// The field's display name.
    pub closed spec fn spec_name(self) -> Seq<char> {
        self.name@
    }

    /// A new wide-string-pointer field with the given display name.
    pub fn new(name: String) -> (r: Self)
        ensures
            r.spec_name() == name@,
    {
        WideStringPointerField { name }
    }

    /// The field's display name.
    pub fn name(&self) -> (r: Option<String>)
        ensures
            r matches Some(s) && s@ == self.spec_name(),
    {
        Some(self.name.clone())
    }

    /// The field's size: one pointer, 8 bytes.
    pub fn size(&self) -> (r: usize)
        ensures
            r == 8,
    {
        8
    }

    /// The field's kind.
    pub fn kind(&self) -> (r: FieldKind)
        ensures
            r == FieldKind::StrPtr,
    {
        FieldKind::StrPtr
    }
}

/// The signed value of a little-endian byte run of width 1, 2 or 4.
pub open spec fn spec_signed_le(s: Seq<u8>) -> int
    recommends
        s.len() == 1 || s.len() == 2 || s.len() == 4,
{
    if s.len() == 1 {
        if s[0] < 128 {
            s[0] as int
        } else {
            s[0] - 256
        }
    } else if s.len() == 2 {
        let u = spec_u16_from_le_bytes(s);
        if u < 0x8000 {
            u as int
        } else {
            u - 0x10000
        }
    } else {
        let u = spec_u32_from_le_bytes(s);
        if u < 0x80000000 {
            u as int
        } else {
            u - 0x100000000
        }
    }
}

/// Decodes the two halves of an `N`-byte little-endian cell as signed
/// integers of half the cell's width: the first result comes from the
/// first argument's bytes, the second from the second's.
pub fn int_high_low_from_le<const N: usize>(high: &[u8], low: &[u8]) -> (r: (i64, i64))
    requires
        N == 2 || N == 4 || N == 8,
        high@.len() == N / 2,
        low@.len() == N / 2,
    ensures
        r.0 == spec_signed_le(high@),
        r.1 == spec_signed_le(low@),
{
    let half = N / 2;
    if half == 1 {
        (signed_of_byte(*slice_index_get(high, 0)), signed_of_byte(*slice_index_get(low, 0)))
    } else if half == 2 {
        (signed_of_u16(u16_from_le_bytes(high)), signed_of_u16(u16_from_le_bytes(low)))
    } else {
        (signed_of_u32(u32_from_le_bytes(high)), signed_of_u32(u32_from_le_bytes(low)))
    }
}

/// The signed reading of one byte.
fn signed_of_byte(b: u8) -> (r: i64)
    ensures
        b < 128 ==> r == b as int,
        b >= 128 ==> r == b - 256,
{
    if b < 128 {
        b as i64
    } else {
        (b as i64) - 256
    }
}

/// The signed reading of a 2-byte value.
fn signed_of_u16(u: u16) -> (r: i64)
    ensures
        u < 0x8000 ==> r == u as int,
        u >= 0x8000 ==> r == u - 0x10000,
{
    if u < 0x8000 {
        u as i64
    } else {
        (u as i64) - 0x10000
    }
}

/// The signed reading of a 4-byte value.
fn signed_of_u32(u: u32) -> (r: i64)
    ensures
        u < 0x80000000 ==> r == u as int,
        u >= 0x80000000 ==> r == u - 0x100000000,
{
    if u < 0x80000000 {
        u as i64
    } else {
        (u as i64) - 0x100000000
    }
}

} // verus!
