use vstd::prelude::*;

use crate::meaningless_bytes::MeaninglessBytes;

verus! {

/// An 8-bit-per-channel (24 bits in total) color: red, green, blue, and one
/// meaningless byte that keeps the value free of padding.
#[derive(Clone, Copy)]
pub struct Color(pub u8, pub u8, pub u8, pub MeaninglessBytes<1>);

impl Color {
    /// Whether the meaningless byte is zero, as `Color::new` leaves it.
    pub open spec fn has_zero_padding(self) -> bool {
        self.3.spec_bytes() == seq![0u8]
    }

    /// The color with the given red, green and blue channels, and a zero
    /// meaningless byte.
    pub fn new(r: u8, g: u8, b: u8) -> (c: Self)
        ensures
            c.0 == r,
            c.1 == g,
            c.2 == b,
            c.has_zero_padding(),
    {
        let padding: MeaninglessBytes<1> = MeaninglessBytes::default();
        assert(padding.spec_bytes() =~= seq![0u8]);
        Color(r, g, b, padding)
    }

    /// The red, green and blue channels.
    pub fn rgb(&self) -> (t: (u8, u8, u8))
        ensures
            t == (self.0, self.1, self.2),
    {
        (self.0, self.1, self.2)
    }
}

} // verus!
