use vstd::prelude::*;

use crate::color::{luma, luma_of, LinearRgb, LINEAR_MAX};
use crate::reduce::PaletteEntry;

verus! {

/// The darkest and the lightest color of a palette.
#[derive(Clone, Copy, Debug, PartialEq, Eq, Structural)]
pub struct Extremes {
    pub darkest: LinearRgb,
    pub lightest: LinearRgb,
}

/// `d` is the first entry of `e` with the least luma.
pub open spec fn is_first_darkest(e: Seq<PaletteEntry>, d: int) -> bool {
    &&& 0 <= d < e.len()
    &&& forall|p: int| 0 <= p < e.len() ==> luma_of(e[d].color) <= luma_of(#[trigger] e[p].color)
    &&& forall|p: int| 0 <= p < d ==> luma_of(#[trigger] e[p].color) > luma_of(e[d].color)
}

/// `l` is the first entry of `e` with the greatest luma.
pub open spec fn is_first_lightest(e: Seq<PaletteEntry>, l: int) -> bool {
    &&& 0 <= l < e.len()
    &&& forall|p: int| 0 <= p < e.len() ==> luma_of(#[trigger] e[p].color) <= luma_of(e[l].color)
    &&& forall|p: int| 0 <= p < l ==> luma_of(#[trigger] e[p].color) < luma_of(e[l].color)
}

/// Picks the darkest and the lightest color of a palette by luma; among entries
/// of equal luma the first in palette order wins. An empty palette gives pure
/// black as darkest and pure white as lightest.
pub fn select_extremes(palette: &Vec<PaletteEntry>) -> (x: Extremes)
    ensures
        palette@.len() == 0 ==> x == (Extremes {
            darkest: LinearRgb { r: 0, g: 0, b: 0 },
            lightest: LinearRgb { r: LINEAR_MAX, g: LINEAR_MAX, b: LINEAR_MAX },
        }),
        palette@.len() > 0 ==> exists|d: int|
            is_first_darkest(palette@, d) && x.darkest == (#[trigger] palette@[d]).color,
        palette@.len() > 0 ==> exists|l: int|
            is_first_lightest(palette@, l) && x.lightest == (#[trigger] palette@[l]).color,
        forall|p: int|
            0 <= p < palette@.len() ==> luma_of(x.darkest) <= luma_of(#[trigger] palette@[p].color)
                <= luma_of(x.lightest),
{
    if palette.len() == 0 {
        return Extremes { darkest: LinearRgb::black(), lightest: LinearRgb::white() };
    }
    let mut d: usize = 0;
    let mut l: usize = 0;
    let mut d_luma = luma(&palette[0].color);
    let mut l_luma = d_luma;
    let mut i: usize = 1;
    while i < palette.len()
        invariant
            1 <= i <= palette@.len(),
            d < i,
            l < i,
            d_luma == luma_of(palette@[d as int].color),
            l_luma == luma_of(palette@[l as int].color),
            forall|p: int| 0 <= p < i ==> d_luma <= luma_of(#[trigger] palette@[p].color),
            forall|p: int| 0 <= p < d ==> luma_of(#[trigger] palette@[p].color) > d_luma,
            forall|p: int| 0 <= p < i ==> luma_of(#[trigger] palette@[p].color) <= l_luma,
            forall|p: int| 0 <= p < l ==> luma_of(#[trigger] palette@[p].color) < l_luma,
        decreases palette@.len() - i,
    {
        let v = luma(&palette[i].color);
        if v < d_luma {
            d = i;
            d_luma = v;
        }
        if v > l_luma {
            l = i;
            l_luma = v;
        }
        i = i + 1;
    }
    assert(is_first_darkest(palette@, d as int));
    assert(is_first_lightest(palette@, l as int));
    Extremes { darkest: palette[d].color, lightest: palette[l].color }
}

} // verus!
