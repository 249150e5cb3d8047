use vstd::prelude::*;

verus! {

/// Bytes that carry no information. They fill what would otherwise be
/// padding, so that a value holding them has every byte initialised.
#[derive(Clone, Copy)]
pub struct MeaninglessBytes<const NUM_BYTES: usize> {
    bytes: [u8; NUM_BYTES],
}

impl<const NUM_BYTES: usize> MeaninglessBytes<NUM_BYTES> {
    /// The content of the bytes.
    pub closed spec fn spec_bytes(self) -> Seq<u8> {
        self.bytes@
    }
}

impl<const NUM_BYTES: usize> Default for MeaninglessBytes<NUM_BYTES> {
    /// All bytes zero.
    fn default() -> (r: Self)
        ensures
            r.spec_bytes().len() == NUM_BYTES,
            forall|i: int| 0 <= i < NUM_BYTES ==> r.spec_bytes()[i] == 0u8,
    {
        let bytes: [u8; NUM_BYTES] = vstd::array::array_fill_for_copy_types(0u8);
        MeaninglessBytes { bytes }
    }
}

} // verus!
