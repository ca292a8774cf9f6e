//! Element data types for tensors in the computation graph.
//!
//! These are compile-time metadata: `mlgraph` never touches actual tensor
//! data. The dtype determines byte-size calculations for bandwidth analysis.

use vstd::prelude::*;
use crate::arith::{sat_mul, mul_sat};

verus! {

/// Supported element data types.
#[derive(Debug, Clone, Copy, PartialEq, Eq, Hash, Structural)]
#[non_exhaustive]
pub enum DType {
    /// 16-bit floating point (IEEE 754 half-precision).
    F16,
    /// 16-bit brain floating point.
    Bf16,
    /// 32-bit floating point.
    F32,
    /// 64-bit floating point.
    F64,
    /// 8-bit unsigned integer.
    U8,
    /// 8-bit signed integer (quantized weights).
    I8,
    /// 32-bit signed integer.
    I32,
    /// 64-bit signed integer.
    I64,
    /// 4-bit integer (packed, 2 elements per byte).
    Int4,
}

impl DType {
    /// Bytes of one element; sub-byte `Int4` rounds up to one byte.
    pub open spec fn spec_byte_size(self) -> usize {
        match self {
            DType::F16 | DType::Bf16 => 2,
            DType::F32 | DType::I32 => 4,
            DType::F64 | DType::I64 => 8,
            DType::U8 | DType::I8 | DType::Int4 => 1,
        }
    }

    /// Bytes needed for `count` elements: `Int4` packs two elements per
    /// byte (rounding up), every other type multiplies by its element size,
    /// saturating at `u64::MAX`.
    pub open spec fn spec_bytes_for(self, count: u64) -> u64 {
        match self {
            DType::Int4 => (count / 2 + count % 2) as u64,
            _ => sat_mul(count, self.spec_byte_size() as u64),
        }
    }

    /// Size of one element in bytes.
    ///
    /// For sub-byte types like [`Int4`](DType::Int4) the effective size is
    /// half a byte, rounded up to 1 here. Use
    /// [`byte_size_for_elements`](Self::byte_size_for_elements) for bulk
    /// calculations.
    pub fn byte_size(self) -> (r: usize)
        ensures
            r == self.spec_byte_size(),
    {
        match self {
            DType::F16 | DType::Bf16 => 2,
            DType::F32 | DType::I32 => 4,
            DType::F64 | DType::I64 => 8,
            DType::U8 | DType::I8 | DType::Int4 => 1,
        }
    }

    /// Total bytes needed to store `count` elements of this dtype.
    ///
    /// Handles sub-byte packing (`Int4` packs 2 elements per byte) and
    /// saturates instead of overflowing.
    pub fn byte_size_for_elements(self, count: u64) -> (r: u64)
        ensures
            r == self.spec_bytes_for(count),
    {
        match self {
            DType::Int4 => count / 2 + count % 2,
            other => mul_sat(count, other.byte_size() as u64),
        }
    }

    /// The lowercase name of this dtype (`"f16"`, `"int4"`, ...).
    pub open spec fn spec_name(self) -> Seq<char> {
        match self {
            DType::F16 => "f16"@,
            DType::Bf16 => "bf16"@,
            DType::F32 => "f32"@,
            DType::F64 => "f64"@,
            DType::U8 => "u8"@,
            DType::I8 => "i8"@,
            DType::I32 => "i32"@,
            DType::I64 => "i64"@,
            DType::Int4 => "int4"@,
        }
    }

    /// The lowercase name of this dtype (`"f16"`, `"int4"`, ...).
    pub fn name(self) -> (r: &'static str)
        ensures
            r@ == self.spec_name(),
    {
        match self {
            DType::F16 => "f16",
            DType::Bf16 => "bf16",
            DType::F32 => "f32",
            DType::F64 => "f64",
            DType::U8 => "u8",
            DType::I8 => "i8",
            DType::I32 => "i32",
            DType::I64 => "i64",
            DType::Int4 => "int4",
        }
    }
}

/// Packing laws for byte sizes: the byte count never shrinks when more
/// elements are stored, `Int4` needs exactly half a byte per element
/// (rounded up), and every other type needs its full element size per
/// element unless the product saturates.
pub proof fn lemma_byte_size_laws(d: DType, a: u64, b: u64)
    requires
        a <= b,
    ensures
        d.spec_bytes_for(a) <= d.spec_bytes_for(b),
        d == DType::Int4 ==> 2 * d.spec_bytes_for(a) == a || 2 * d.spec_bytes_for(a) == a + 1,
        d != DType::Int4 && a * d.spec_byte_size() <= u64::MAX ==>
            d.spec_bytes_for(a) == a * d.spec_byte_size(),
{
    if d != DType::Int4 {
        let s = d.spec_byte_size() as u64;
        assert(a * s <= b * s) by (nonlinear_arith)
            requires a <= b, 0 <= s;
    }
}

} // verus!
