use vstd::prelude::*;

verus! {

/// Which elevation samples the terrain slopes at a texel are taken from.
#[derive(Debug, Clone, Copy, PartialEq, Eq, Structural)]
pub enum SlopeStencil {
    /// A texel of a map with a single row: both slopes are zero.
    SingleRow,
    /// A texel in the top or bottom row: the eastward slope is zero, and the northward slope
    /// is the difference of the samples in rows `upper_y` and `lower_y` of the texel's column,
    /// one row apart.
    Polar { upper_y: u32, lower_y: u32 },
    /// Any other texel: central differences across the neighboring columns, which wrap around
    /// at the antimeridian, and across the rows just above and below.
    Interior { east_x: u32, west_x: u32, north_y: u32, south_y: u32 },
}

/// The samples that the slopes at column `x` and row `y` of a `width` by `height` elevation
/// map are taken from.
pub open spec fn slope_stencil_of(x: u32, y: u32, width: u32, height: u32) -> SlopeStencil {
    if y == 0 || y + 1 == height {
        if height == 1 {
            SlopeStencil::SingleRow
        } else if y == 0 {
            SlopeStencil::Polar { upper_y: 0, lower_y: 1 }
        } else {
            SlopeStencil::Polar { upper_y: (height - 2) as u32, lower_y: (height - 1) as u32 }
        }
    } else {
        SlopeStencil::Interior {
            east_x: ((x + 1) % (width as int)) as u32,
            west_x: ((x + width - 1) % (width as int)) as u32,
            north_y: (y - 1) as u32,
            south_y: (y + 1) as u32,
        }
    }
}

/// Chooses the samples for the slopes at column `x` and row `y` of an elevation map.
pub fn slope_stencil(x: u32, y: u32, width: u32, height: u32) -> (stencil: SlopeStencil)
    requires
        x < width,
        y < height,
    ensures
        stencil == slope_stencil_of(x, y, width, height),
        stencil matches SlopeStencil::Polar { upper_y, lower_y } ==> lower_y < height && lower_y
            == upper_y + 1,
        stencil matches SlopeStencil::Interior { east_x, west_x, north_y, south_y } ==> east_x
            < width && west_x < width && north_y < height && south_y < height,
        stencil matches SlopeStencil::Interior { east_x, west_x, north_y, south_y } ==> {
            &&& east_x == if x + 1 == width { 0 } else { x + 1 }
            &&& west_x == if x == 0 { width - 1 } else { x - 1 }
            &&& north_y + 1 == y
            &&& south_y == y + 1
        },
{
    proof {
        law_slope_stencil_uses_neighbors(x, y, width, height);
    }
    if y == 0 || y + 1 == height {
        if height == 1 {
            SlopeStencil::SingleRow
        } else if y == 0 {
            SlopeStencil::Polar { upper_y: 0, lower_y: 1 }
        } else {
            SlopeStencil::Polar { upper_y: height - 2, lower_y: height - 1 }
        }
    } else {
        let east_x = ((x as u64 + 1) % width as u64) as u32;
        let west_x = ((x as u64 + width as u64 - 1) % width as u64) as u32;
        SlopeStencil::Interior { east_x, west_x, north_y: y - 1, south_y: y + 1 }
    }
}

/// The slopes at a texel come from its neighbors: away from the top and bottom rows, the
/// columns just east and west of it (the east neighbor of the last column is the first, and
/// the west neighbor of the first column is the last) and the rows just above and below; in
/// the top and bottom rows, the texel's own row and the one next to it, unless the map has a
/// single row.
pub proof fn law_slope_stencil_uses_neighbors(x: u32, y: u32, width: u32, height: u32)
    requires
        x < width,
        y < height,
    ensures
        0 < y && y + 1 < height ==> (slope_stencil_of(x, y, width, height) == (
        SlopeStencil::Interior {
            east_x: if x + 1 == width { 0 } else { (x + 1) as u32 },
            west_x: if x == 0 { (width - 1) as u32 } else { (x - 1) as u32 },
            north_y: (y - 1) as u32,
            south_y: (y + 1) as u32,
        })),
        height == 1 ==> slope_stencil_of(x, y, width, height) == SlopeStencil::SingleRow,
        height > 1 && y == 0 ==> (slope_stencil_of(x, y, width, height) == (SlopeStencil::Polar {
            upper_y: 0,
            lower_y: 1,
        })),
        height > 1 && y + 1 == height ==> (slope_stencil_of(x, y, width, height) == (
        SlopeStencil::Polar { upper_y: (y - 1) as u32, lower_y: y })),
{
    let w = width as int;
    if x + 1 == width {
        assert((x + 1) % w == 0) by {
            vstd::arithmetic::div_mod::lemma_mod_self_0(w);
        }
    } else {
        vstd::arithmetic::div_mod::lemma_small_mod((x + 1) as nat, w as nat);
    }
    if x == 0 {
        vstd::arithmetic::div_mod::lemma_small_mod((w - 1) as nat, w as nat);
    } else {
        vstd::arithmetic::div_mod::lemma_mod_add_multiples_vanish(x - 1, w);
        vstd::arithmetic::div_mod::lemma_small_mod((x - 1) as nat, w as nat);
    }
}

} // verus!
