//! Built-in icon glyphs: 8-byte bitmaps preloaded into the panel's CGRAM
//! at fixed slot indices.

use vstd::prelude::*;

verus! {

/// A built-in icon with a fixed CGRAM slot and a 5x8 pixel bitmap.
#[derive(Clone, Copy, PartialEq, Eq, Structural, Debug)]
pub enum Icon {
    MAIL,
    BELL,
    FILLEDBOX,
    EMPTYBOX,
    MUSIC,
    PLAY,
    PAUSE,
}

impl Icon {
    /// The rows of the icon's bitmap, top to bottom; only the low five bits
    /// of each byte are pixels.
    pub open spec fn spec_char_data(self) -> Seq<u8> {
        match self {
            Icon::MAIL => seq![0x00u8, 0x00, 0x00, 0x1F, 0x1B, 0x15, 0x11, 0x1F],
            Icon::BELL => seq![0x00u8, 0x04, 0x0A, 0x0A, 0x11, 0x11, 0x1F, 0x04],
            Icon::FILLEDBOX => seq![0x00u8, 0x1F, 0x11, 0x15, 0x11, 0x1F, 0x00, 0x00],
            Icon::EMPTYBOX => seq![0x00u8, 0x1F, 0x11, 0x11, 0x11, 0x1F, 0x00, 0x00],
            Icon::MUSIC => seq![0x00u8, 0x00, 0x00, 0x0F, 0x09, 0x09, 0x09, 0x12],
            Icon::PLAY => seq![0x00u8, 0x02, 0x06, 0x0E, 0x1E, 0x0E, 0x06, 0x02],
            Icon::PAUSE => seq![0x1Bu8, 0x1B, 0x1B, 0x1B, 0x1B, 0x1B, 0x1B, 0x1B],
        }
    }

    /// The CGRAM slot the icon is loaded into at driver start-up.
    pub open spec fn spec_index(self) -> u8 {
        match self {
            Icon::MAIL => 0,
            Icon::BELL => 1,
            Icon::FILLEDBOX => 2,
            Icon::EMPTYBOX => 3,
            Icon::MUSIC => 4,
            Icon::PLAY => 5,
            Icon::PAUSE => 6,
        }
    }

    pub fn char_data(&self) -> (r: [u8; 8])
        ensures
            r@ == self.spec_char_data(),
    {
        let r = match *self {
            Icon::MAIL => [0x00, 0x00, 0x00, 0x1F, 0x1B, 0x15, 0x11, 0x1F],
            Icon::BELL => [0x00, 0x04, 0x0A, 0x0A, 0x11, 0x11, 0x1F, 0x04],
            Icon::FILLEDBOX => [0x00, 0x1F, 0x11, 0x15, 0x11, 0x1F, 0x00, 0x00],
            Icon::EMPTYBOX => [0x00, 0x1F, 0x11, 0x11, 0x11, 0x1F, 0x00, 0x00],
            Icon::MUSIC => [0x00, 0x00, 0x00, 0x0F, 0x09, 0x09, 0x09, 0x12],
            Icon::PLAY => [0x00, 0x02, 0x06, 0x0E, 0x1E, 0x0E, 0x06, 0x02],
            Icon::PAUSE => [0x1B, 0x1B, 0x1B, 0x1B, 0x1B, 0x1B, 0x1B, 0x1B],
        };
        proof {
            assert(r@ =~= self.spec_char_data());
        }
        r
    }

    pub fn index(&self) -> (r: u8)
        ensures
            r == self.spec_index(),
    {
        match *self {
            Icon::MAIL => 0,
            Icon::BELL => 1,
            Icon::FILLEDBOX => 2,
            Icon::EMPTYBOX => 3,
            Icon::MUSIC => 4,
            Icon::PLAY => 5,
            Icon::PAUSE => 6,
        }
    }
}

} // verus!
