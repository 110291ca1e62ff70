use emap::{MapBoxTileUrlProvider, OsmStandardTileUrlProvider, TileId, TileUrlProvider};

#[test]
fn osm_url_has_zoom_column_row() {
    let t = TileId { x: 1, y: 2, z: 3 };
    assert_eq!(OsmStandardTileUrlProvider.url(t), "https://tile.openstreetmap.org/3/1/2.png");
}

#[test]
fn osm_url_multi_digit_numbers() {
    let t = TileId { x: 8937, y: 5679, z: 14 };
    assert_eq!(OsmStandardTileUrlProvider.url(t), "https://tile.openstreetmap.org/14/8937/5679.png");
}

#[test]
fn osm_url_zero_tile() {
    let t = TileId { x: 0, y: 0, z: 0 };
    assert_eq!(OsmStandardTileUrlProvider.url(t), "https://tile.openstreetmap.org/0/0/0.png");
}

#[test]
fn osm_url_negative_column() {
    let t = TileId { x: -12, y: 2147483647, z: 255 };
    assert_eq!(OsmStandardTileUrlProvider.url(t), "https://tile.openstreetmap.org/255/-12/2147483647.png");
}

#[test]
fn mapbox_url_carries_style_and_token() {
    let p = MapBoxTileUrlProvider::new("SECRET-REDACTED", "mapbox/streets-v12");
    let t = TileId { x: 4, y: 5, z: 6 };
    assert_eq!(
        p.url(t),
        "https://api.mapbox.com/styles/v1/mapbox/streets-v12/tiles/6/4/5?access_token=SECRET-REDACTED"
    );
}

#[test]
fn tile_url_matches_trait_url() {
    let t = TileId { x: 70, y: 33, z: 7 };
    assert_eq!(OsmStandardTileUrlProvider.tile_url(t), OsmStandardTileUrlProvider.url(t));
    let p = MapBoxTileUrlProvider::new("tok", "me/style");
    assert_eq!(p.tile_url(t), "https://api.mapbox.com/styles/v1/me/style/tiles/7/70/33?access_token=tok");
}
