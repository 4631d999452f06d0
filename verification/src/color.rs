use vstd::prelude::*;

verus! {

/// An immutable 4-channel color value.
///
/// The `a` channel is a binary transparency gate: the value `0` means the
/// color is fully transparent and every drawing operation skips the pixel
/// entirely; any other value means fully opaque. No partial blending occurs
/// anywhere in the system.
#[derive(Clone, Copy, PartialEq, Eq, Structural, Debug)]
pub struct Color {
    pub r: u8,
    pub g: u8,
    pub b: u8,
    pub a: u8,
}

impl Color {
    /// True when every drawing operation skips pixels of this color.
    pub open spec fn is_transparent(self) -> bool {
        self.a == 0
    }

    /// Builds a color from a packed `0xRRGGBB` value and a transparency gate.
    pub fn new(hex: u32, alpha: u8) -> (c: Color)
        ensures
            c == (Color {
                r: ((hex >> 16) & 0xff) as u8,
                g: ((hex >> 8) & 0xff) as u8,
                b: (hex & 0xff) as u8,
                a: alpha,
            }),
    {
        proof {
            assert((hex >> 16) & 0xff < 256 && (hex >> 8) & 0xff < 256 && hex & 0xff < 256)
                by (bit_vector);
        }
        let r = ((hex >> 16) & 0xff) as u8;
        let g = ((hex >> 8) & 0xff) as u8;
        let b = (hex & 0xff) as u8;
        Color { r, g, b, a: alpha }
    }

    /// Builds a color from its four channels.
    pub fn new_rgba(r: u8, g: u8, b: u8, a: u8) -> (c: Color)
        ensures
            c == (Color { r, g, b, a }),
    {
        Color { r, g, b, a }
    }
}

/// The fully opaque transparency gate used by the named colors.
pub const OPAQUE: u8 = 0xff;

pub fn red() -> (c: Color)
    ensures
        c == (Color { r: 0xfa, g: 0x4b, b: 0x4b, a: OPAQUE }),
{
    Color { r: 0xfa, g: 0x4b, b: 0x4b, a: OPAQUE }
}

pub fn orange() -> (c: Color)
    ensures
        c == (Color { r: 0xff, g: 0x7e, b: 0x35, a: OPAQUE }),
{
    Color { r: 0xff, g: 0x7e, b: 0x35, a: OPAQUE }
}

pub fn yellow() -> (c: Color)
    ensures
        c == (Color { r: 0xfc, g: 0xbb, b: 0x13, a: OPAQUE }),
{
    Color { r: 0xfc, g: 0xbb, b: 0x13, a: OPAQUE }
}

pub fn green() -> (c: Color)
    ensures
        c == (Color { r: 0x12, g: 0xb7, b: 0x6a, a: OPAQUE }),
{
    Color { r: 0x12, g: 0xb7, b: 0x6a, a: OPAQUE }
}

pub fn white() -> (c: Color)
    ensures
        c == (Color { r: 0xff, g: 0xff, b: 0xff, a: OPAQUE }),
{
    Color { r: 0xff, g: 0xff, b: 0xff, a: OPAQUE }
}

pub fn black() -> (c: Color)
    ensures
        c == (Color { r: 0, g: 0, b: 0, a: OPAQUE }),
{
    Color { r: 0, g: 0, b: 0, a: OPAQUE }
}

pub fn desktop_background() -> (c: Color)
    ensures
        c == (Color { r: 0x20, g: 0x20, b: 0x20, a: OPAQUE }),
{
    Color { r: 0x20, g: 0x20, b: 0x20, a: OPAQUE }
}

pub fn bright_red() -> (c: Color)
    ensures
        c == (Color { r: 0xfc, g: 0xa5, b: 0xa5, a: OPAQUE }),
{
    Color { r: 0xfc, g: 0xa5, b: 0xa5, a: OPAQUE }
}

pub fn bright_yellow() -> (c: Color)
    ensures
        c == (Color { r: 0xfd, g: 0xdd, b: 0x89, a: OPAQUE }),
{
    Color { r: 0xfd, g: 0xdd, b: 0x89, a: OPAQUE }
}

pub fn trace_log() -> (c: Color)
    ensures
        c == (Color { r: 0xaa, g: 0xaa, b: 0xaa, a: OPAQUE }),
{
    Color { r: 0xaa, g: 0xaa, b: 0xaa, a: OPAQUE }
}

pub fn mouse_fill() -> (c: Color)
    ensures
        c == (Color { r: 0x10, g: 0x10, b: 0x10, a: OPAQUE }),
{
    Color { r: 0x10, g: 0x10, b: 0x10, a: OPAQUE }
}

pub fn window_border() -> (c: Color)
    ensures
        c == (Color { r: 0x55, g: 0x55, b: 0x55, a: OPAQUE }),
{
    Color { r: 0x55, g: 0x55, b: 0x55, a: OPAQUE }
}

pub fn transparent() -> (c: Color)
    ensures
        c == (Color { r: 0, g: 0, b: 0, a: 0 }),
        c.is_transparent(),
{
    Color { r: 0, g: 0, b: 0, a: 0 }
}

} // verus!
