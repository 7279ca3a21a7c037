use vstd::prelude::*;

verus! {

/// A bitmap downloaded with `~DG`.
#[derive(Debug)]
pub struct StoredGraphics {
    pub total_bytes: i32,
    pub row_bytes: i32,
    pub data: Vec<u8>,
}

} // verus!
