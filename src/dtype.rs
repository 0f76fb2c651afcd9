use vstd::prelude::*;

verus! {

/// Element type of a tensor.
#[derive(Debug, Copy, Clone, PartialEq, Eq, Default, Hash)]
pub enum DType {
    #[default]
    F32,
    I32,
    U32,
}

/// Size in bytes of one element of `dt`.
pub open spec fn spec_size_of(dt: DType) -> nat {
    match dt {
        DType::F32 => 4,
        DType::I32 => 4,
        DType::U32 => 4,
    }
}

/// Every element type takes four bytes.
pub proof fn lemma_size_of_four(dt: DType)
    ensures
        spec_size_of(dt) == 4,
{
    match dt {
        DType::F32 => {},
        DType::I32 => {},
        DType::U32 => {},
    }
}

impl DType {
    pub fn size_of(self) -> (r: usize)
        ensures
            r == spec_size_of(self),
    {
        match self {
            DType::F32 => 4,
            DType::I32 => 4,
            DType::U32 => 4,
        }
    }

    /// The name of the type as it is written in kernel source.
    pub fn as_str(self) -> (r: &'static str)
        ensures
            self == DType::F32 ==> r@ == "f32"@,
            self == DType::I32 ==> r@ == "i32"@,
            self == DType::U32 ==> r@ == "u32"@,
    {
        proof {
            reveal_strlit("f32");
            reveal_strlit("i32");
            reveal_strlit("u32");
        }
        match self {
            DType::F32 => "f32",
            DType::I32 => "i32",
            DType::U32 => "u32",
        }
    }
}

/// A Rust element type stored in tensors.
pub trait DataType: Sized {
    spec fn spec_dt() -> DType;

    fn dt() -> (r: DType)
        ensures
            r == Self::spec_dt(),
    ;

    fn one() -> Self;
}

impl DataType for i32 {
    open spec fn spec_dt() -> DType {
        DType::I32
    }

    fn dt() -> (r: DType) {
        DType::I32
    }

    fn one() -> (r: i32)
        ensures
            r == 1,
    {
        1
    }
}

impl DataType for u32 {
    open spec fn spec_dt() -> DType {
        DType::U32
    }

    fn dt() -> (r: DType) {
        DType::U32
    }

    fn one() -> (r: u32)
        ensures
            r == 1,
    {
        1
    }
}

/// Kind of scalar named by a NumPy type string.
#[derive(Debug, Copy, Clone, PartialEq, Eq)]
pub enum NpyKind {
    Bool,
    Int,
    Uint,
    Float,
    Complex,
    Other,
}

/// The parts of a NumPy type string that decide the element type: byte order,
/// scalar kind and size in bytes.
#[derive(Debug, Copy, Clone, PartialEq, Eq)]
pub struct NpyTypeDesc {
    pub little_endian: bool,
    pub kind: NpyKind,
    pub size: u64,
}

/// The element type of a NumPy type string, where it is one that tensors hold.
pub open spec fn spec_dtype_of_npy(d: NpyTypeDesc) -> Option<DType> {
    if !d.little_endian || d.size != 4 {
        None
    } else {
        match d.kind {
            NpyKind::Float => Some(DType::F32),
            NpyKind::Int => Some(DType::I32),
            NpyKind::Uint => Some(DType::U32),
            _ => None,
        }
    }
}

impl DType {
    /// The element type of a little-endian 4-byte float, signed or unsigned integer;
    /// nothing for any other NumPy type.
    pub fn from_npy(d: NpyTypeDesc) -> (r: Option<DType>)
        ensures
            r == spec_dtype_of_npy(d),
    {
        if !d.little_endian || d.size != 4 {
            return None;
        }
        match d.kind {
            NpyKind::Float => Some(DType::F32),
            NpyKind::Int => Some(DType::I32),
            NpyKind::Uint => Some(DType::U32),
            _ => None,
        }
    }
}

} // verus!
