//! Color handling and the framebuffer-to-pixel renderer.
use vstd::prelude::*;

verus! {

/// An RGB color triple, as handed to the renderer.
pub struct Rgb {
    pub r: u8,
    pub g: u8,
    pub b: u8,
}

/// Splits a 24-bit `0xRRGGBB` value into its three channels.
pub fn hex_to_rgb(hex: u32) -> (c: Rgb)
    ensures
        c.r == (hex >> 16) & 0xFF,
        c.g == (hex >> 8) & 0xFF,
        c.b == hex & 0xFF,
{
    proof {
        assert((hex >> 16) & 0xFF < 256 && (hex >> 8) & 0xFF < 256 && hex & 0xFF < 256)
            by (bit_vector);
    }
    Rgb {
        r: ((hex >> 16) & 0xFF) as u8,
        g: ((hex >> 8) & 0xFF) as u8,
        b: (hex & 0xFF) as u8,
    }
}

/// The byte at offset `i` of the rendered RGBA pixel buffer: each display
/// cell becomes four bytes, the three channels of the foreground color
/// where the cell reads exactly 1 and of the background color everywhere
/// else, then an opaque alpha byte.
pub open spec fn pixel_byte(d: Seq<u8>, fg: Rgb, bg: Rgb, i: int) -> u8 {
    let chan = i % 4;
    let c = if d[i / 4] == 1 {
        fg
    } else {
        bg
    };
    if chan == 0 {
        c.r
    } else if chan == 1 {
        c.g
    } else if chan == 2 {
        c.b
    } else {
        0xFF
    }
}

/// Maps the 2048-cell framebuffer onto an RGBA pixel buffer, 4 bytes per
/// cell, as `pixel_byte` describes.
pub fn render_texture_to_target(dispmem: &[u8; 2048], frame: &mut Vec<u8>, fg: &Rgb, bg: &Rgb)
    requires
        old(frame)@.len() == 8192,
    ensures
        final(frame)@.len() == 8192,
        forall|i: int|
            0 <= i < 8192 ==> #[trigger] final(frame)@[i] == pixel_byte(dispmem@, *fg, *bg, i),
{
    let mut p: usize = 0;
    while p < 2048
        invariant
            p <= 2048,
            frame@.len() == 8192,
            forall|i: int| 0 <= i < 4 * p ==> #[trigger] frame@[i] == pixel_byte(dispmem@, *fg, *bg, i),
        decreases 2048 - p,
    {
        if dispmem[p] == 1 {
            frame.set(4 * p, fg.r);
            frame.set(4 * p + 1, fg.g);
            frame.set(4 * p + 2, fg.b);
        } else {
            frame.set(4 * p, bg.r);
            frame.set(4 * p + 1, bg.g);
            frame.set(4 * p + 2, bg.b);
        }
        frame.set(4 * p + 3, 0xFF);
        p += 1;
    }
}

} // verus!
