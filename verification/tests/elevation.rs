use apollo18_renderer::elevation::{slope_stencil, SlopeStencil};

#[test]
fn interior_columns_wrap_at_the_antimeridian() {
    assert_eq!(
        slope_stencil(0, 1, 4, 3),
        SlopeStencil::Interior { east_x: 1, west_x: 3, north_y: 0, south_y: 2 }
    );
    assert_eq!(
        slope_stencil(3, 1, 4, 3),
        SlopeStencil::Interior { east_x: 0, west_x: 2, north_y: 0, south_y: 2 }
    );
}

#[test]
fn polar_rows_use_one_sided_differences() {
    assert_eq!(slope_stencil(2, 0, 4, 3), SlopeStencil::Polar { upper_y: 0, lower_y: 1 });
    assert_eq!(slope_stencil(2, 2, 4, 3), SlopeStencil::Polar { upper_y: 1, lower_y: 2 });
}

#[test]
fn single_row_maps_are_flat() {
    assert_eq!(slope_stencil(0, 0, 1, 1), SlopeStencil::SingleRow);
}
