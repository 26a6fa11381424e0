//! Packed 24-bit colours and an integer HSV to RGB conversion.
use vstd::prelude::*;

verus! {

/// Saturation and value are fixed-point fractions: this stands for 1.
pub const FULL: u8 = 255;

/// An RGB colour, eight bits per channel.
#[derive(Clone, Copy, Debug, PartialEq, Eq, Structural)]
pub struct Rgb {
    pub r: u8,
    pub g: u8,
    pub b: u8,
}

/// The packed form `0x00RRGGBB` of a colour.
pub open spec fn packed(c: Rgb) -> int {
    (c.r as int) * 65536 + (c.g as int) * 256 + (c.b as int)
}

/// The colour held in the low 24 bits of `n`; the top byte is ignored.
pub open spec fn unpacked(n: int) -> Rgb {
    Rgb { r: ((n / 65536) % 256) as u8, g: ((n / 256) % 256) as u8, b: (n % 256) as u8 }
}

/// Chroma of the conversion, with saturation and value scaled to 255.
pub open spec fn chroma(saturation: int, value: int) -> int {
    value * saturation / 255
}

/// Distance, in degrees, of a hue from the middle of its 120-degree period.
pub open spec fn mid_distance(h: int) -> int {
    if h % 120 >= 60 {
        h % 120 - 60
    } else {
        60 - h % 120
    }
}

/// The secondary component `C * (1 - |(H / 60) mod 2 - 1|)`.
pub open spec fn secondary(h: int, c: int) -> int {
    c * (60 - mid_distance(h)) / 60
}

/// Standard HSV to RGB conversion: the hue in whole degrees (360 is the same
/// as 0), saturation and value as fractions of 255, channels on 0..=255.
pub open spec fn hsv_to_rgb(hue: int, saturation: int, value: int) -> Rgb {
    let h = hue % 360;
    let c = chroma(saturation, value);
    let x = secondary(h, c);
    let m = value - c;
    if h < 60 {
        Rgb { r: (c + m) as u8, g: (x + m) as u8, b: m as u8 }
    } else if h < 120 {
        Rgb { r: (x + m) as u8, g: (c + m) as u8, b: m as u8 }
    } else if h < 180 {
        Rgb { r: m as u8, g: (c + m) as u8, b: (x + m) as u8 }
    } else if h < 240 {
        Rgb { r: m as u8, g: (x + m) as u8, b: (c + m) as u8 }
    } else if h < 300 {
        Rgb { r: (x + m) as u8, g: m as u8, b: (c + m) as u8 }
    } else {
        Rgb { r: (c + m) as u8, g: m as u8, b: (x + m) as u8 }
    }
}

impl Rgb {
    /// Packs the colour as `0x00RRGGBB`.
    pub fn to_u32(&self) -> (n: u32)
        ensures
            n == packed(*self),
            n < 0x0100_0000,
    {
        (self.r as u32) * 65536 + (self.g as u32) * 256 + (self.b as u32)
    }
}

/// Splits a packed `0x??RRGGBB` value into its three channels.
pub fn u32_to_color(n: u32) -> (c: Rgb)
    ensures
        c == unpacked(n as int),
{
    Rgb { r: ((n / 65536) % 256) as u8, g: ((n / 256) % 256) as u8, b: (n % 256) as u8 }
}

/// Converts a hue in degrees, with saturation and value as fractions of
/// [`FULL`], to RGB. The hue must lie in `0..=360`.
pub fn hue_to_rgb(hue: u32, saturation: u8, value: u8) -> (c: Rgb)
    requires
        hue <= 360,
    ensures
        c == hsv_to_rgb(hue as int, saturation as int, value as int),
{
    let h: u32 = hue % 360;
    let v: u32 = value as u32;
    let s: u32 = saturation as u32;
    assert(v * s <= 255 * 255) by (nonlinear_arith)
        requires
            v <= 255,
            s <= 255,
    ;
    let c: u32 = v * s / 255;
    assert(c <= v) by (nonlinear_arith)
        requires
            c == v * s / 255,
            s <= 255,
    ;
    let d: u32 = if h % 120 >= 60 {
        h % 120 - 60
    } else {
        60 - h % 120
    };
    assert(d <= 60);
    assert(c * (60 - d) <= 255 * 60) by (nonlinear_arith)
        requires
            c <= 255,
            d <= 60,
    ;
    let x: u32 = c * (60 - d) / 60;
    assert(x <= c) by (nonlinear_arith)
        requires
            x == c * (60 - d) / 60,
            d <= 60,
            c <= 255,
    ;
    let m: u32 = v - c;
    let (r, g, b): (u32, u32, u32) = if h < 60 {
        (c, x, 0)
    } else if h < 120 {
        (x, c, 0)
    } else if h < 180 {
        (0, c, x)
    } else if h < 240 {
        (0, x, c)
    } else if h < 300 {
        (x, 0, c)
    } else {
        (c, 0, x)
    };
    Rgb { r: (r + m) as u8, g: (g + m) as u8, b: (b + m) as u8 }
}

/// The components of the conversion stay within one channel's range: the
/// chroma, the secondary component and the offset `m` lie on `0..=value`,
/// and so does every sum that becomes a channel.
pub proof fn lemma_components_in_range(hue: int, saturation: u8, value: u8)
    requires
        0 <= hue <= 360,
    ensures
        0 <= chroma(saturation as int, value as int) <= value,
        0 <= secondary(hue % 360, chroma(saturation as int, value as int)) <= chroma(
            saturation as int,
            value as int,
        ),
{
    let (s, v) = (saturation as int, value as int);
    let c = chroma(s, v);
    assert(0 <= c <= v) by (nonlinear_arith)
        requires
            c == v * s / 255,
            0 <= s <= 255,
            0 <= v <= 255,
    ;
    let d = mid_distance(hue % 360);
    assert(0 <= d <= 60);
    assert(0 <= c * (60 - d) / 60 <= c) by (nonlinear_arith)
        requires
            0 <= d <= 60,
            0 <= c,
    ;
}

/// Every hue on `0..=360`, at full saturation and value, gives three
/// channels on `0..=255` with no truncation (each channel is the exact sum
/// of the standard formula), and hue 360 gives the same colour as hue 0.
pub proof fn lemma_hue_wraps(hue: int)
    requires
        0 <= hue <= 360,
    ensures
        hsv_to_rgb(0, FULL as int, FULL as int) == hsv_to_rgb(360, FULL as int, FULL as int),
        ({
            let h = hue % 360;
            let x = secondary(h, chroma(FULL as int, FULL as int));
            &&& chroma(FULL as int, FULL as int) == 255
            &&& 0 <= x <= 255
            &&& hsv_to_rgb(hue, FULL as int, FULL as int) == (if h < 60 {
                Rgb { r: 255, g: x as u8, b: 0 }
            } else if h < 120 {
                Rgb { r: x as u8, g: 255, b: 0 }
            } else if h < 180 {
                Rgb { r: 0, g: 255, b: x as u8 }
            } else if h < 240 {
                Rgb { r: 0, g: x as u8, b: 255 }
            } else if h < 300 {
                Rgb { r: x as u8, g: 0, b: 255 }
            } else {
                Rgb { r: 255, g: 0, b: x as u8 }
            })
        }),
{
    lemma_components_in_range(hue, FULL, FULL);
}

} // verus!
