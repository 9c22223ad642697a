use vstd::prelude::*;

verus! {

/// Source bytes: `J2000`
pub const J2000: u32 = 1404527632;

} // verus!
