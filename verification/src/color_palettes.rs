//! Palettes that turn the colour numbers of a picture into RGBA pixels.

use vstd::prelude::*;

verus! {

/// The RGBA value of each colour number.
pub struct ColorPalette {
    pub colors: Vec<[u8; 4]>,
}

/// The standard 16-colour EGA palette, fully opaque.
pub open spec fn ega_colors() -> Seq<Seq<u8>> {
    seq![
        seq![0x00u8, 0x00u8, 0x00u8, 0xffu8],
        seq![0x00u8, 0x00u8, 0xaau8, 0xffu8],
        seq![0x00u8, 0xaau8, 0x00u8, 0xffu8],
        seq![0x00u8, 0xaau8, 0xaau8, 0xffu8],
        seq![0xaau8, 0x00u8, 0x00u8, 0xffu8],
        seq![0xaau8, 0x00u8, 0xaau8, 0xffu8],
        seq![0xaau8, 0x55u8, 0x00u8, 0xffu8],
        seq![0xaau8, 0xaau8, 0xaau8, 0xffu8],
        seq![0x55u8, 0x55u8, 0x55u8, 0xffu8],
        seq![0x55u8, 0x55u8, 0xffu8, 0xffu8],
        seq![0x55u8, 0xffu8, 0x55u8, 0xffu8],
        seq![0x55u8, 0xffu8, 0xffu8, 0xffu8],
        seq![0xffu8, 0x55u8, 0x55u8, 0xffu8],
        seq![0xffu8, 0x55u8, 0xffu8, 0xffu8],
        seq![0xffu8, 0xffu8, 0x55u8, 0xffu8],
        seq![0xffu8, 0xffu8, 0xffu8, 0xffu8],
    ]
}

impl ColorPalette {
    /// The colours of the palette, each as its four bytes.
    pub open spec fn colors_view(&self) -> Seq<Seq<u8>> {
        self.colors@.map_values(|c: [u8; 4]| c@)
    }
}

/// The EGA palette that AGI pictures are drawn in.
pub fn ega_palette() -> (p: ColorPalette)
    ensures
        p.colors_view() == ega_colors(),
{
    let colors: Vec<[u8; 4]> = vec![
        [0x00, 0x00, 0x00, 0xff],
        [0x00, 0x00, 0xaa, 0xff],
        [0x00, 0xaa, 0x00, 0xff],
        [0x00, 0xaa, 0xaa, 0xff],
        [0xaa, 0x00, 0x00, 0xff],
        [0xaa, 0x00, 0xaa, 0xff],
        [0xaa, 0x55, 0x00, 0xff],
        [0xaa, 0xaa, 0xaa, 0xff],
        [0x55, 0x55, 0x55, 0xff],
        [0x55, 0x55, 0xff, 0xff],
        [0x55, 0xff, 0x55, 0xff],
        [0x55, 0xff, 0xff, 0xff],
        [0xff, 0x55, 0x55, 0xff],
        [0xff, 0x55, 0xff, 0xff],
        [0xff, 0xff, 0x55, 0xff],
        [0xff, 0xff, 0xff, 0xff],
    ];
    let p = ColorPalette { colors };
    assert(p.colors_view() =~= ega_colors());
    p
}

/// The RGBA bytes of colour numbers: the palette's four bytes for each.
pub open spec fn rgba_of(pixels: Seq<u8>, colors: Seq<Seq<u8>>) -> Seq<u8>
    decreases pixels.len(),
{
    if pixels.len() == 0 {
        Seq::empty()
    } else {
        rgba_of(pixels.drop_last(), colors) + colors[pixels.last() as int]
    }
}

} // verus!
