use vstd::prelude::*;
use crate::decimal::{decimal, push_decimal};
use crate::tile::TileId;

verus! {

/// Maps a tile to the address its image is fetched from.
pub trait TileUrlProvider {
    fn url(&self, tile_id: TileId) -> String;
}

/// `<z>/<x>/<y>`: the tile's path below a tile server's root, or below a cache directory.
pub open spec fn tile_path(t: TileId) -> Seq<char> {
    decimal(t.z as int) + "/"@ + decimal(t.x as int) + "/"@ + decimal(t.y as int)
}

/// Appends `<z>/<x>/<y>` to `s`.
pub fn push_tile_path(s: &mut String, t: TileId)
    ensures
        final(s)@ == old(s)@ + tile_path(t),
{
    let ghost s0 = s@;
    push_decimal(s, t.z as i64);
    s.append("/");
    push_decimal(s, t.x as i64);
    s.append("/");
    push_decimal(s, t.y as i64);
    assert(s@ =~= s0 + tile_path(t));
}

/// Tiles of a Mapbox style, fetched with an access token.
pub struct MapBoxTileUrlProvider {
    token: String,
    style: String,
}

impl MapBoxTileUrlProvider {
    pub closed spec fn token_view(&self) -> Seq<char> {
        self.token@
    }

    pub closed spec fn style_view(&self) -> Seq<char> {
        self.style@
    }

    pub fn new(token: &str, style: &str) -> (r: Self)
        ensures
            r.token_view() == token@,
            r.style_view() == style@,
    {
        MapBoxTileUrlProvider { token: String::from_str(token), style: String::from_str(style) }
    }

    /// `https://api.mapbox.com/styles/v1/<style>/tiles/<z>/<x>/<y>?access_token=<token>`
    pub open spec fn url_of(&self, tile_id: TileId) -> Seq<char> {
        "https://api.mapbox.com/styles/v1/"@ + self.style_view() + "/tiles/"@ + tile_path(tile_id)
            + "?access_token="@ + self.token_view()
    }

    pub fn tile_url(&self, tile_id: TileId) -> (r: String)
        ensures
            r@ == self.url_of(tile_id),
    {
        let mut s = String::from_str("https://api.mapbox.com/styles/v1/");
        s.append(self.style.as_str());
        s.append("/tiles/");
        push_tile_path(&mut s, tile_id);
        s.append("?access_token=");
        s.append(self.token.as_str());
        assert(s@ =~= self.url_of(tile_id));
        s
    }
}

impl TileUrlProvider for MapBoxTileUrlProvider {
    fn url(&self, tile_id: TileId) -> (r: String)
        ensures
            r@ == self.url_of(tile_id),
    {
        self.tile_url(tile_id)
    }
}

/// The standard tiles of openstreetmap.org.
#[derive(Debug, Clone, Copy, Default)]
pub struct OsmStandardTileUrlProvider;

impl OsmStandardTileUrlProvider {
    /// `https://tile.openstreetmap.org/<z>/<x>/<y>.png`
    pub open spec fn url_of(&self, tile_id: TileId) -> Seq<char> {
        "https://tile.openstreetmap.org/"@ + tile_path(tile_id) + ".png"@
    }

    pub fn tile_url(&self, tile_id: TileId) -> (r: String)
        ensures
            r@ == self.url_of(tile_id),
    {
        let mut s = String::from_str("https://tile.openstreetmap.org/");
        push_tile_path(&mut s, tile_id);
        s.append(".png");
        assert(s@ =~= self.url_of(tile_id));
        s
    }
}

impl TileUrlProvider for OsmStandardTileUrlProvider {
    fn url(&self, tile_id: TileId) -> (r: String)
        ensures
            r@ == self.url_of(tile_id),
    {
        self.tile_url(tile_id)
    }
}

} // verus!
