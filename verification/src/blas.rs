//! What to hand to a BLAS dot routine.
//!
//! Such a routine takes an element count as a 32-bit signed integer and two
//! buffers, and reads that many elements of each without looking at their
//! lengths. The count to pass for two slices walked with stride 1 is decided
//! here; the call itself is the caller's.
use vstd::prelude::*;

verus! {

/// Why two slices cannot be handed to the routine.
#[derive(Clone, Copy, Debug, PartialEq, Eq, Structural)]
pub enum CountError {
    /// The slices differ in length.
    Mismatch,
    /// The slices have more elements than the count can express.
    TooLong,
}

/// The largest element count.
pub const MAX_COUNT: usize = 0x7fff_ffff;

/// The count for two slices of these lengths, or the reason why there is
/// none.
pub open spec fn count_spec(x_len: usize, y_len: usize) -> Result<i32, CountError> {
    if x_len != y_len {
        Err(CountError::Mismatch)
    } else if x_len > MAX_COUNT {
        Err(CountError::TooLong)
    } else {
        Ok(x_len as i32)
    }
}

/// The element count to pass to the routine for two slices of the lengths
/// `x_len` and `y_len`: their common length. Slices of different lengths are
/// refused, and so are slices too long for the count.
pub fn element_count(x_len: usize, y_len: usize) -> (n: Result<i32, CountError>)
    ensures
        n == count_spec(x_len, y_len),
        n matches Ok(c) ==> c == x_len && c == y_len,
{
    if x_len != y_len {
        Err(CountError::Mismatch)
    } else if x_len > MAX_COUNT {
        Err(CountError::TooLong)
    } else {
        Ok(x_len as i32)
    }
}

} // verus!
