//! Value data types and their codes in the native runtime.

use vstd::prelude::*;

verus! {

/// Value data type.
#[derive(Debug, Clone, Copy, PartialEq, Eq, Hash, Structural)]
pub enum Dtype {
    Null,
    BFloat16,
    Float16,
    Float32,
    Float64,
    Int8,
    Int16,
    Int32,
    Int64,
    Uint8,
    Uint16,
    Uint32,
    Uint64,
    Bool,
    String,
    List,
    Dict,
    Image,
    ImageList,
    ArrayList,
    Complex64,
    Complex128,
    Binary,
}

/// The native runtime's code for each data type.
pub open spec fn dtype_code(dtype: Dtype) -> int {
    match dtype {
        Dtype::Null => 0,
        Dtype::Float16 => 1,
        Dtype::Float32 => 2,
        Dtype::Float64 => 3,
        Dtype::Int8 => 4,
        Dtype::Int16 => 5,
        Dtype::Int32 => 6,
        Dtype::Int64 => 7,
        Dtype::Uint8 => 8,
        Dtype::Uint16 => 9,
        Dtype::Uint32 => 10,
        Dtype::Uint64 => 11,
        Dtype::Bool => 12,
        Dtype::String => 13,
        Dtype::List => 14,
        Dtype::Dict => 15,
        Dtype::Image => 16,
        Dtype::Binary => 17,
        Dtype::BFloat16 => 18,
        Dtype::ImageList => 19,
        Dtype::ArrayList => 20,
        Dtype::Complex64 => 21,
        Dtype::Complex128 => 22,
    }
}

/// Numeric and boolean element types, whose values are tensors.
pub open spec fn is_tensor(dtype: Dtype) -> bool {
    match dtype {
        Dtype::BFloat16 | Dtype::Float16 | Dtype::Float32 | Dtype::Float64 | Dtype::Int8
        | Dtype::Int16 | Dtype::Int32 | Dtype::Int64 | Dtype::Uint8 | Dtype::Uint16
        | Dtype::Uint32 | Dtype::Uint64 | Dtype::Complex64 | Dtype::Complex128 | Dtype::Bool => true,
        _ => false,
    }
}

/// Signed and unsigned integer element types.
pub open spec fn is_integer(dtype: Dtype) -> bool {
    match dtype {
        Dtype::Int8 | Dtype::Int16 | Dtype::Int32 | Dtype::Int64 | Dtype::Uint8 | Dtype::Uint16
        | Dtype::Uint32 | Dtype::Uint64 => true,
        _ => false,
    }
}

/// Each data type has its own code, from 0 to 22.
pub proof fn lemma_dtype_code_injective(a: Dtype, b: Dtype)
    ensures
        0 <= dtype_code(a) <= 22,
        dtype_code(a) == dtype_code(b) ==> a == b,
{
}

/// The native runtime's code for `dtype`.
pub fn dtype_to_c(dtype: Dtype) -> (code: i32)
    ensures
        code == dtype_code(dtype),
{
    match dtype {
        Dtype::Null => 0,
        Dtype::Float16 => 1,
        Dtype::Float32 => 2,
        Dtype::Float64 => 3,
        Dtype::Int8 => 4,
        Dtype::Int16 => 5,
        Dtype::Int32 => 6,
        Dtype::Int64 => 7,
        Dtype::Uint8 => 8,
        Dtype::Uint16 => 9,
        Dtype::Uint32 => 10,
        Dtype::Uint64 => 11,
        Dtype::Bool => 12,
        Dtype::String => 13,
        Dtype::List => 14,
        Dtype::Dict => 15,
        Dtype::Image => 16,
        Dtype::Binary => 17,
        Dtype::BFloat16 => 18,
        Dtype::ImageList => 19,
        Dtype::ArrayList => 20,
        Dtype::Complex64 => 21,
        Dtype::Complex128 => 22,
    }
}

/// The data type with native code `value`, if any.
pub fn dtype_from_c(value: i32) -> (r: Option<Dtype>)
    ensures
        match r {
            Some(dtype) => dtype_code(dtype) == value,
            None => forall|dtype: Dtype| dtype_code(dtype) != value,
        },
{
    match value {
        0 => Some(Dtype::Null),
        1 => Some(Dtype::Float16),
        2 => Some(Dtype::Float32),
        3 => Some(Dtype::Float64),
        4 => Some(Dtype::Int8),
        5 => Some(Dtype::Int16),
        6 => Some(Dtype::Int32),
        7 => Some(Dtype::Int64),
        8 => Some(Dtype::Uint8),
        9 => Some(Dtype::Uint16),
        10 => Some(Dtype::Uint32),
        11 => Some(Dtype::Uint64),
        12 => Some(Dtype::Bool),
        13 => Some(Dtype::String),
        14 => Some(Dtype::List),
        15 => Some(Dtype::Dict),
        16 => Some(Dtype::Image),
        17 => Some(Dtype::Binary),
        18 => Some(Dtype::BFloat16),
        19 => Some(Dtype::ImageList),
        20 => Some(Dtype::ArrayList),
        21 => Some(Dtype::Complex64),
        22 => Some(Dtype::Complex128),
        _ => None,
    }
}

/// Converting a data type to its native code and back gives the same
/// data type.
pub proof fn lemma_dtype_code_round_trip(dtype: Dtype, value: int)
    requires
        value == dtype_code(dtype),
    ensures
        forall|other: Dtype| dtype_code(other) == value ==> other == dtype,
{
}

/// Whether values of `dtype` are tensors.
pub fn is_tensor_dtype(dtype: Dtype) -> (r: bool)
    ensures
        r == is_tensor(dtype),
{
    match dtype {
        Dtype::BFloat16 | Dtype::Float16 | Dtype::Float32 | Dtype::Float64 | Dtype::Int8
        | Dtype::Int16 | Dtype::Int32 | Dtype::Int64 | Dtype::Uint8 | Dtype::Uint16
        | Dtype::Uint32 | Dtype::Uint64 | Dtype::Complex64 | Dtype::Complex128 | Dtype::Bool => true,
        _ => false,
    }
}

/// Whether `dtype` is one of the integer element types.
pub fn is_integer_dtype(dtype: Dtype) -> (r: bool)
    ensures
        r == is_integer(dtype),
{
    match dtype {
        Dtype::Int8 | Dtype::Int16 | Dtype::Int32 | Dtype::Int64 | Dtype::Uint8 | Dtype::Uint16
        | Dtype::Uint32 | Dtype::Uint64 => true,
        _ => false,
    }
}

} // verus!
