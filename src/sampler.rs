use vstd::prelude::*;

use crate::color::Rgb8;
use crate::error::PaletteError;

verus! {

/// Alpha value of a fully opaque pixel.
pub const OPAQUE: u8 = 255;

/// The stored color of pixel `i` of an RGBA8 buffer.
pub open spec fn pixel_color(buf: Seq<u8>, i: int) -> Rgb8 {
    Rgb8 { r: buf[4 * i], g: buf[4 * i + 1], b: buf[4 * i + 2] }
}

/// Whether pixel `i` of an RGBA8 buffer is fully opaque.
pub open spec fn pixel_opaque(buf: Seq<u8>, i: int) -> bool {
    buf[4 * i + 3] == OPAQUE
}

/// The colors of the opaque pixels among the first `n` pixels, in scan order.
pub open spec fn opaque_prefix(buf: Seq<u8>, n: nat) -> Seq<Rgb8>
    decreases n,
{
    if n == 0 {
        Seq::empty()
    } else {
        let rest = opaque_prefix(buf, (n - 1) as nat);
        if pixel_opaque(buf, n - 1) {
            rest.push(pixel_color(buf, n - 1))
        } else {
            rest
        }
    }
}

/// The colors of all opaque pixels of an RGBA8 buffer, in scan order.
pub open spec fn opaque_samples(buf: Seq<u8>) -> Seq<Rgb8> {
    opaque_prefix(buf, (buf.len() / 4) as nat)
}

/// Collects the colors of the fully opaque pixels of an RGBA8 buffer
/// (four bytes per pixel, in scan order). Fails with `EmptySampleSet`
/// when no pixel is opaque.
pub fn sample_pixels(buf: &Vec<u8>) -> (r: Result<Vec<Rgb8>, PaletteError>)
    requires
        buf@.len() % 4 == 0,
    ensures
        opaque_samples(buf@).len() == 0 <==> r == Err::<Vec<Rgb8>, PaletteError>(
            PaletteError::EmptySampleSet,
        ),
        opaque_samples(buf@).len() > 0 ==> r is Ok,
        r is Ok ==> r->Ok_0@ == opaque_samples(buf@),
{
    let len = buf.len();
    let n = len / 4;
    let mut out: Vec<Rgb8> = Vec::new();
    let mut i: usize = 0;
    while i < n
        invariant
            len == buf@.len(),
            n == len / 4,
            i <= n,
            out@ == opaque_prefix(buf@, i as nat),
        decreases n - i,
    {
        assert(4 * i + 3 < buf@.len()) by (nonlinear_arith)
            requires
                i < n,
                n == buf@.len() / 4,
        ;
        assert(4 * i + 3 < len);
        let base = 4 * i;
        if buf[base + 3] == OPAQUE {
            out.push(Rgb8 { r: buf[base], g: buf[base + 1], b: buf[base + 2] });
        }
        i = i + 1;
    }
    if out.len() == 0 {
        Err(PaletteError::EmptySampleSet)
    } else {
        Ok(out)
    }
}

} // verus!
