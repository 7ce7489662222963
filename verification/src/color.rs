//! Byte-level color operations: the physical channel-order remap applied
//! just before transmission, and the split of an RGB color into RGBW.

use vstd::prelude::*;

verus! {

/// Physical wiring order of the LED strip's color channels. Values computed
/// in RGB order are reordered to this layout just before transmission.
#[derive(Clone, Copy, Debug, PartialEq, Eq, Structural)]
pub enum ChannelOrder {
    Rgb,
    Grb,
    Brg,
    Bgr,
    Gbr,
}

/// The triple `(r, g, b)` laid out in the given wiring order.
pub open spec fn remap_spec(r: u8, g: u8, b: u8, order: ChannelOrder) -> (u8, u8, u8) {
    match order {
        ChannelOrder::Grb => (g, r, b),
        ChannelOrder::Brg => (b, r, g),
        ChannelOrder::Bgr => (b, g, r),
        ChannelOrder::Gbr => (g, b, r),
        ChannelOrder::Rgb => (r, g, b),
    }
}

/// Reorder one zone's channel bytes for the strip's physical wiring.
pub fn remap_order(r: u8, g: u8, b: u8, order: ChannelOrder) -> (out: (u8, u8, u8))
    ensures
        out == remap_spec(r, g, b, order),
{
    match order {
        ChannelOrder::Grb => (g, r, b),
        ChannelOrder::Brg => (b, r, g),
        ChannelOrder::Bgr => (b, g, r),
        ChannelOrder::Gbr => (g, b, r),
        ChannelOrder::Rgb => (r, g, b),
    }
}

/// The white component of an RGB color: the smallest of the three channels.
pub open spec fn white_part(r: u8, g: u8, b: u8) -> u8 {
    if r <= g && r <= b {
        r
    } else if g <= b {
        g
    } else {
        b
    }
}

/// Split an RGB color into RGBW by extracting the white component: white is
/// `min(r, g, b)`, and each color channel is reduced by that amount; the
/// sum `r + g + b` is recoverable as `r' + g' + b' + 3w`.
pub fn rgb_to_rgbw(r: u8, g: u8, b: u8) -> (out: (u8, u8, u8, u8))
    ensures
        out.3 == white_part(r, g, b),
        out.0 == r - white_part(r, g, b),
        out.1 == g - white_part(r, g, b),
        out.2 == b - white_part(r, g, b),
{
    let w = if r <= g && r <= b {
        r
    } else if g <= b {
        g
    } else {
        b
    };
    (r - w, g - w, b - w, w)
}

} // verus!
