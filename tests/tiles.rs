use emap::{DyadicRect, Raster, TileId};

fn t(x: i32, y: i32, z: u8) -> TileId {
    TileId { x, y, z }
}

#[test]
fn from_bounds_without_padding_is_the_box() {
    let tiles = TileId::from_bounds(1, 2, 3, 3, 3, 0);
    assert_eq!(tiles, vec![t(1, 2, 3), t(1, 3, 3), t(2, 2, 3), t(2, 3, 3), t(3, 2, 3), t(3, 3, 3)]);
}

#[test]
fn from_bounds_corners_in_any_order() {
    assert_eq!(TileId::from_bounds(3, 3, 1, 2, 3, 0), TileId::from_bounds(1, 2, 3, 3, 3, 0));
    assert_eq!(TileId::from_bounds(3, 2, 1, 3, 3, 0), TileId::from_bounds(1, 2, 3, 3, 3, 0));
}

#[test]
fn from_bounds_padding_is_clipped_to_the_plane() {
    let tiles = TileId::from_bounds(0, 3, 0, 3, 2, 1);
    assert_eq!(tiles, vec![t(0, 2, 2), t(0, 3, 2), t(1, 2, 2), t(1, 3, 2)]);
}

#[test]
fn from_bounds_padding_dilates_each_side() {
    let tiles = TileId::from_bounds(5, 5, 5, 5, 4, 2);
    assert_eq!(tiles.len(), 25);
    for x in 3..=7 {
        for y in 3..=7 {
            assert!(tiles.contains(&t(x, y, 4)));
        }
    }
    assert_eq!(tiles[0], t(3, 3, 4));
    assert_eq!(tiles[24], t(7, 7, 4));
}

#[test]
fn from_bounds_at_zoom_zero_is_the_one_tile() {
    assert_eq!(TileId::from_bounds(0, 0, 0, 0, 0, 2), vec![t(0, 0, 0)]);
}

#[test]
fn from_bounds_off_the_plane_is_empty() {
    assert!(TileId::from_bounds(10, 10, 12, 12, 2, 0).is_empty());
    assert!(TileId::from_bounds(-5, -5, -3, -3, 2, 1).is_empty());
}

#[test]
fn bounds_normalized_of_tile() {
    let b = t(3, 5, 4).bounds_normalized();
    assert_eq!(b, DyadicRect { min_x: 3, min_y: 5, max_x: 4, max_y: 6, level: 4 });
}

#[test]
fn tiles_at_a_zoom_partition_the_unit_square() {
    // every point (i + 0.5) / 16 lies in exactly one tile of zoom 2
    let z = 2u8;
    let n = 1i64 << z;
    for i in 0..16i64 {
        for j in 0..16i64 {
            let mut hits = 0;
            for x in 0..n as i32 {
                for y in 0..n as i32 {
                    let b = t(x, y, z).bounds_normalized();
                    let s = 1i64 << b.level;
                    assert_eq!(b.max_x - b.min_x, 1);
                    assert_eq!(b.max_y - b.min_y, 1);
                    let px = 2 * i + 1;
                    let py = 2 * j + 1;
                    if b.min_x * 32 <= px * s && px * s < b.max_x * 32 && b.min_y * 32 <= py * s && py * s < b.max_y * 32 {
                        hits += 1;
                    }
                }
            }
            assert_eq!(hits, 1);
        }
    }
}

#[test]
fn zoom_out_picks_the_quadrant() {
    let (p, uv) = t(3, 2, 2).zoom_out_with_uv(DyadicRect::full());
    assert_eq!(p, t(1, 1, 1));
    assert_eq!(uv, DyadicRect { min_x: 1, min_y: 0, max_x: 2, max_y: 1, level: 1 });
    let (p2, uv2) = p.zoom_out_with_uv(uv);
    assert_eq!(p2, t(0, 0, 0));
    assert_eq!(uv2, DyadicRect { min_x: 3, min_y: 2, max_x: 4, max_y: 3, level: 2 });
}

#[test]
fn fallback_chain_stops_above_zoom_zero() {
    let chain = t(5, 6, 3).fallback_chain();
    assert_eq!(chain.len(), 2);
    assert_eq!(chain[0].0, t(2, 3, 2));
    assert_eq!(chain[0].1, DyadicRect { min_x: 1, min_y: 0, max_x: 2, max_y: 1, level: 1 });
    assert_eq!(chain[1].0, t(1, 1, 1));
    assert_eq!(chain[1].1, DyadicRect { min_x: 1, min_y: 2, max_x: 2, max_y: 3, level: 2 });
    assert!(t(0, 0, 0).fallback_chain().is_empty());
    assert!(t(1, 0, 1).fallback_chain().is_empty());
}

/// A raster of `n x n` pixels where pixel (x, y) holds the colour (x, y, 7, 255).
fn tagged(n: u32) -> Raster {
    let mut pixels = Vec::new();
    for y in 0..n {
        for x in 0..n {
            pixels.extend_from_slice(&[x as u8, y as u8, 7, 255]);
        }
    }
    Raster { width: n, height: n, pixels }
}

/// The pixel of `img` at the top left corner of the sub-rectangle `uv`.
fn sample(img: &Raster, uv: &DyadicRect) -> [u8; 4] {
    let s = 1i64 << uv.level;
    let px = uv.min_x * img.width as i64 / s;
    let py = uv.min_y * img.height as i64 / s;
    img.rgba_at(px as u32, py as u32)
}

#[test]
fn climbed_uv_crops_the_right_quadrant_of_a_checkerboard() {
    let board = tagged(2);
    for x in 0..2 {
        for y in 0..2 {
            let (p, uv) = t(x, y, 1).zoom_out_with_uv(DyadicRect::full());
            assert_eq!(p, t(0, 0, 0));
            assert_eq!(uv.max_x - uv.min_x, 1);
            assert_eq!(sample(&board, &uv), [x as u8, y as u8, 7, 255]);
        }
    }
}

#[test]
fn climbed_uv_crops_the_right_cell_two_levels_up() {
    let board = tagged(4);
    for x in 0..8 {
        for y in 0..8 {
            let child = t(x, y, 3);
            let chain = child.fallback_chain();
            let (a, uv) = chain[1];
            assert_eq!(a, t(x / 4, y / 4, 1));
            assert_eq!(a.x as i64 * 4 + uv.min_x, x as i64);
            assert_eq!(a.y as i64 * 4 + uv.min_y, y as i64);
            assert_eq!(sample(&board, &uv), [(x % 4) as u8, (y % 4) as u8, 7, 255]);
        }
    }
}

#[test]
fn rgba_at_reads_four_bytes() {
    let img = tagged(3);
    assert_eq!(img.rgba_at(2, 1), [2, 1, 7, 255]);
    assert_eq!(img.rgba_at(0, 2), [0, 2, 7, 255]);
}
