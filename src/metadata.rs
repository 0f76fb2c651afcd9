use vstd::prelude::*;

verus! {

/// Alignment in bytes of a uniform buffer.
pub const UNIFORM_ALIGN: usize = 256;

/// Alignment in bytes of a storage buffer binding offset.
pub const STORAGE_BUFFER_ALIGN: usize = 256;

/// Byte size of the uniform buffer that holds `size` bytes of kernel metadata: the size
/// moved past the next multiple of the uniform alignment.
pub open spec fn spec_uniform_size(size: int) -> int {
    size + (UNIFORM_ALIGN - size % (UNIFORM_ALIGN as int))
}

/// Byte size of the uniform buffer for `size` bytes of metadata.
pub fn uniform_buffer_size(size: usize) -> (r: usize)
    requires
        size + UNIFORM_ALIGN <= usize::MAX,
    ensures
        r == spec_uniform_size(size as int),
        r % UNIFORM_ALIGN == 0,
        size < r <= size + UNIFORM_ALIGN,
{
    size + (UNIFORM_ALIGN - size % UNIFORM_ALIGN)
}

} // verus!
