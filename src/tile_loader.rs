use vstd::prelude::*;
use std::collections::HashMap;
use std::sync::Arc;
use crate::raster::{decode_raster, example_raster, raster_of, Raster};
use crate::tile::TileId;
use crate::url_provider::{push_tile_path, tile_path};

verus! {

broadcast use vstd::std_specs::hash::group_hash_axioms;

#[verifier::external_type_specification]
#[verifier::external_body]
pub struct ExContext(egui::Context);

/// Hands out the image of a tile, or nothing while it is not available yet.
pub trait TileLoader {
    fn tile(&self, url: String, tile_id: &TileId, ctx: egui::Context) -> Option<Arc<Raster>>;
}

/// A loader without network or disk: every tile gets the same placeholder image.
#[derive(Debug, Clone, Copy, Default)]
pub struct DummyLoader;

impl TileLoader for DummyLoader {
    fn tile(&self, _url: String, _tile_id: &TileId, _ctx: egui::Context) -> (r: Option<Arc<Raster>>)
        ensures
            r is Some,
            r->0.width == 128 && r->0.height == 64 && r->0.wf(),
    {
        Some(Arc::new(example_raster()))
    }
}

/// Where a requested tile stands.
pub enum FetchState {
    /// A fetch is under way, or failed and was left.
    Pending,
    /// The decoded image, kept for the life of the table.
    Done(Arc<Raster>),
}

/// What a caller learns when asking for a tile.
pub enum Lookup {
    /// The image is there.
    Ready(Arc<Raster>),
    /// A fetch was asked for earlier and has not finished.
    InFlight,
    /// Nobody asked before: the tile is now pending, and the caller hands the
    /// fetch to the background worker.
    Requested,
}

/// The packed key of a tile: zoom, column and row side by side in 128 bits.
pub open spec fn tile_key(t: TileId) -> int {
    t.z * 0x1_0000_0000_0000_0000 + (t.x + 0x8000_0000) * 0x1_0000_0000 + (t.y + 0x8000_0000)
}

proof fn lemma_pack_unique(a1: int, b1: int, a2: int, b2: int, m: int)
    requires
        m > 0,
        0 <= b1 < m,
        0 <= b2 < m,
        a1 * m + b1 == a2 * m + b2,
    ensures
        a1 == a2,
        b1 == b2,
{
    if a1 < a2 {
        assert(a1 * m + m <= a2 * m) by (nonlinear_arith)
            requires a1 + 1 <= a2, m > 0;
    }
    if a2 < a1 {
        assert(a2 * m + m <= a1 * m) by (nonlinear_arith)
            requires a2 + 1 <= a1, m > 0;
    }
}

proof fn lemma_tile_key_unique()
    ensures
        forall|a: TileId, b: TileId| #[trigger] tile_key(a) == #[trigger] tile_key(b) ==> a == b,
        forall|a: TileId| 0 <= #[trigger] tile_key(a) < 0x100_0000_0000_0000_0000,
{
    assert forall|a: TileId, b: TileId| #[trigger] tile_key(a) == #[trigger] tile_key(b) implies a == b by {
        let m: int = 0x1_0000_0000;
        let ax = a.x + 0x8000_0000;
        let bx = b.x + 0x8000_0000;
        let ay = a.y + 0x8000_0000;
        let by_ = b.y + 0x8000_0000;
        assert(a.z * 0x1_0000_0000_0000_0000 == (a.z * m) * m) by (nonlinear_arith)
            requires m == 0x1_0000_0000;
        assert(b.z * 0x1_0000_0000_0000_0000 == (b.z * m) * m) by (nonlinear_arith)
            requires m == 0x1_0000_0000;
        assert((a.z * m + ax) * m + ay == tile_key(a)) by (nonlinear_arith)
            requires a.z * 0x1_0000_0000_0000_0000 == (a.z * m) * m, ax == a.x + 0x8000_0000, ay == a.y + 0x8000_0000,
                tile_key(a) == a.z * 0x1_0000_0000_0000_0000 + (a.x + 0x8000_0000) * 0x1_0000_0000 + (a.y + 0x8000_0000), m == 0x1_0000_0000;
        assert((b.z * m + bx) * m + by_ == tile_key(b)) by (nonlinear_arith)
            requires b.z * 0x1_0000_0000_0000_0000 == (b.z * m) * m, bx == b.x + 0x8000_0000, by_ == b.y + 0x8000_0000,
                tile_key(b) == b.z * 0x1_0000_0000_0000_0000 + (b.x + 0x8000_0000) * 0x1_0000_0000 + (b.y + 0x8000_0000), m == 0x1_0000_0000;
        lemma_pack_unique(a.z * m + ax, ay, b.z * m + bx, by_, m);
        lemma_pack_unique(a.z as int, ax, b.z as int, bx, m);
    }
    assert forall|a: TileId| 0 <= #[trigger] tile_key(a) < 0x100_0000_0000_0000_0000 by {
        assert(a.z * 0x1_0000_0000_0000_0000 <= 255 * 0x1_0000_0000_0000_0000) by (nonlinear_arith)
            requires 0 <= a.z <= 255;
        assert(0 <= (a.x + 0x8000_0000) * 0x1_0000_0000 <= 0xffff_ffff * 0x1_0000_0000) by (nonlinear_arith)
            requires 0 <= a.x + 0x8000_0000 <= 0xffff_ffff;
    }
}

fn key_of(t: TileId) -> (k: u128)
    ensures
        k == tile_key(t),
{
    proof {
        lemma_tile_key_unique();
        assert(0 <= t.z * 0x1_0000_0000_0000_0000 <= 255 * 0x1_0000_0000_0000_0000) by (nonlinear_arith)
            requires 0 <= t.z <= 255;
        assert(0 <= (t.x + 0x8000_0000) * 0x1_0000_0000 <= 0xffff_ffff * 0x1_0000_0000) by (nonlinear_arith)
            requires 0 <= t.x + 0x8000_0000 <= 0xffff_ffff;
    }
    let z = t.z as u128;
    let x = (t.x as i64 + 0x8000_0000) as u128;
    let y = (t.y as i64 + 0x8000_0000) as u128;
    z * 0x1_0000_0000_0000_0000 + x * 0x1_0000_0000 + y
}

/// The state of every tile that was ever asked for.
pub struct TileStates {
    entries: HashMap<u128, FetchState>,
}

/// What a lookup of `t` returns, given the states before it.
pub open spec fn lookup_result(m: Map<TileId, FetchState>, t: TileId) -> Lookup {
    if !m.contains_key(t) {
        Lookup::Requested
    } else {
        match m[t] {
            FetchState::Pending => Lookup::InFlight,
            FetchState::Done(r) => Lookup::Ready(r),
        }
    }
}

/// The states after a lookup of `t`: a tile nobody asked for before becomes pending.
pub open spec fn after_lookup(m: Map<TileId, FetchState>, t: TileId) -> Map<TileId, FetchState> {
    if m.contains_key(t) {
        m
    } else {
        m.insert(t, FetchState::Pending)
    }
}

impl View for TileStates {
    type V = Map<TileId, FetchState>;

    closed spec fn view(&self) -> Map<TileId, FetchState> {
        Map::new(|t: TileId| self.entries@.contains_key(tile_key(t) as u128), |t: TileId| self.entries@[tile_key(t) as u128])
    }
}

impl TileStates {
    /// Keys of the table are packed tiles only.
    pub closed spec fn wf(&self) -> bool {
        forall|k: u128| #[trigger] self.entries@.contains_key(k) ==> exists|t: TileId| tile_key(t) == k
    }

    pub fn new() -> (r: Self)
        ensures
            r.wf(),
            r@ == Map::<TileId, FetchState>::empty(),
    {
        let r = TileStates { entries: HashMap::new() };
        assert(r@ =~= Map::<TileId, FetchState>::empty());
        r
    }

    /// Looks `tile_id` up; marks it pending when nobody asked for it before, in the
    /// same step, so that a tile is handed to the worker at most once.
    pub fn try_get(&mut self, tile_id: TileId) -> (r: Lookup)
        requires
            old(self).wf(),
        ensures
            final(self).wf(),
            r == lookup_result(old(self)@, tile_id),
            final(self)@ == after_lookup(old(self)@, tile_id),
    {
        proof {
            lemma_tile_key_unique();
        }
        let k = key_of(tile_id);
        match self.entries.get(&k) {
            Some(FetchState::Done(img)) => {
                return Lookup::Ready(img.clone());
            },
            Some(FetchState::Pending) => {
                return Lookup::InFlight;
            },
            None => {},
        }
        let ghost before = *self;
        self.entries.insert(k, FetchState::Pending);
        assert(self@ =~= before@.insert(tile_id, FetchState::Pending));
        Lookup::Requested
    }
    /// Stores the decoded image of a pending tile; a tile that is not pending is left
    /// as it is, so a finished tile never changes again. Says whether it stored.
    pub fn publish(&mut self, tile_id: TileId, image: Arc<Raster>) -> (r: bool)
        requires
            old(self).wf(),
        ensures
            final(self).wf(),
            r == (old(self)@.contains_key(tile_id) && old(self)@[tile_id] is Pending),
            final(self)@ == if r { old(self)@.insert(tile_id, FetchState::Done(image)) } else { old(self)@ },
    {
        proof {
            lemma_tile_key_unique();
        }
        let k = key_of(tile_id);
        let pending = match self.entries.get(&k) {
            Some(FetchState::Pending) => true,
            _ => false,
        };
        if !pending {
            return false;
        }
        let ghost before = *self;
        self.entries.insert(k, FetchState::Done(image));
        assert(self@ =~= before@.insert(tile_id, FetchState::Done(image)));
        true
    }

    /// Forgets a pending tile, so that the next lookup asks for it again; a finished
    /// tile is kept. Says whether it forgot.
    pub fn reset(&mut self, tile_id: TileId) -> (r: bool)
        requires
            old(self).wf(),
        ensures
            final(self).wf(),
            r == (old(self)@.contains_key(tile_id) && old(self)@[tile_id] is Pending),
            final(self)@ == if r { old(self)@.remove(tile_id) } else { old(self)@ },
    {
        proof {
            lemma_tile_key_unique();
        }
        let k = key_of(tile_id);
        let pending = match self.entries.get(&k) {
            Some(FetchState::Pending) => true,
            _ => false,
        };
        if !pending {
            return false;
        }
        let ghost before = *self;
        self.entries.remove(&k);
        assert(self@ =~= before@.remove(tile_id));
        true
    }
}

/// Asking twice for a tile nobody asked for before hands it to the worker once: the
/// first lookup requests it, the second finds it in flight and changes nothing.
pub proof fn lemma_one_fetch_per_tile(m: Map<TileId, FetchState>, t: TileId)
    requires
        !m.contains_key(t),
    ensures
        lookup_result(m, t) is Requested,
        lookup_result(after_lookup(m, t), t) is InFlight,
        after_lookup(after_lookup(m, t), t) == after_lookup(m, t),
{
}

/// An event that the worker reports back while fetching one tile.
pub enum JobEvent {
    /// The cache file was there and held these bytes.
    CacheHit(Vec<u8>),
    /// There is no cache file.
    CacheMiss,
    /// The cache file was there but could not be read.
    CacheFailed,
    /// The server answered with this status and body.
    Downloaded(u16, Vec<u8>),
    /// No answer came from the server.
    DownloadFailed,
    /// These bytes were written to the cache file.
    Stored(Vec<u8>),
    /// The cache file could not be written.
    StoreFailed,
}

/// What the worker does next for one tile.
pub enum JobStep {
    /// Read the cache file at this path below the cache directory.
    ReadCache(String),
    /// Fetch this URL.
    Download(String),
    /// Write these bytes to the cache file at this path below the cache directory,
    /// creating the directories on the way.
    Store(String, Vec<u8>),
    /// Put this image in the table as the tile's, and wake the caller.
    Publish(Raster),
    /// Give the tile up: it stays pending.
    Abandon,
}

pub enum EventView {
    CacheHit(Seq<u8>),
    CacheMiss,
    CacheFailed,
    Downloaded(u16, Seq<u8>),
    DownloadFailed,
    Stored(Seq<u8>),
    StoreFailed,
}

pub enum StepView {
    ReadCache(Seq<char>),
    Download(Seq<char>),
    Store(Seq<char>, Seq<u8>),
    Publish(u32, u32, Seq<u8>),
    Abandon,
}

impl View for JobEvent {
    type V = EventView;

    open spec fn view(&self) -> EventView {
        match self {
            JobEvent::CacheHit(b) => EventView::CacheHit(b@),
            JobEvent::CacheMiss => EventView::CacheMiss,
            JobEvent::CacheFailed => EventView::CacheFailed,
            JobEvent::Downloaded(s, b) => EventView::Downloaded(*s, b@),
            JobEvent::DownloadFailed => EventView::DownloadFailed,
            JobEvent::Stored(b) => EventView::Stored(b@),
            JobEvent::StoreFailed => EventView::StoreFailed,
        }
    }
}

impl View for JobStep {
    type V = StepView;

    open spec fn view(&self) -> StepView {
        match self {
            JobStep::ReadCache(p) => StepView::ReadCache(p@),
            JobStep::Download(u) => StepView::Download(u@),
            JobStep::Store(p, b) => StepView::Store(p@, b@),
            JobStep::Publish(img) => StepView::Publish(img.width, img.height, img.pixels@),
            JobStep::Abandon => StepView::Abandon,
        }
    }
}

/// A status code of the 2xx class.
pub open spec fn is_success(status: u16) -> bool {
    200 <= status <= 299
}

/// Publish the image these bytes decode to, or give up where they hold none.
pub open spec fn decode_step(bytes: Seq<u8>) -> StepView {
    match raster_of(bytes) {
        Some((w, h, p)) => StepView::Publish(w, h, p),
        None => StepView::Abandon,
    }
}

/// The step that follows an event: a cache hit is decoded and never fetched again, a
/// miss is fetched; a successful download is stored first where there is a cache and
/// then decoded; any failure gives the tile up.
pub open spec fn step_after(disk_cache: bool, tile: TileId, url: Seq<char>, ev: EventView) -> StepView {
    match ev {
        EventView::CacheHit(b) => decode_step(b),
        EventView::CacheMiss => StepView::Download(url),
        EventView::CacheFailed => StepView::Abandon,
        EventView::Downloaded(status, b) => if !is_success(status) {
            StepView::Abandon
        } else if disk_cache {
            StepView::Store(tile_path(tile), b)
        } else {
            decode_step(b)
        },
        EventView::DownloadFailed => StepView::Abandon,
        EventView::Stored(b) => decode_step(b),
        EventView::StoreFailed => StepView::Abandon,
    }
}

/// The fetch of one tile by the background worker.
pub struct FetchJob {
    pub tile: TileId,
    pub url: String,
    /// Whether tiles are kept in a cache directory.
    pub disk_cache: bool,
}

fn decode_job_step(bytes: &Vec<u8>) -> (r: JobStep)
    ensures
        r@ == decode_step(bytes@),
{
    match decode_raster(bytes.as_slice()) {
        Some(img) => JobStep::Publish(img),
        None => JobStep::Abandon,
    }
}

impl FetchJob {
    /// The first step: look in the cache where there is one, else fetch.
    pub fn start(&self) -> (r: JobStep)
        ensures
            r@ == if self.disk_cache { StepView::ReadCache(tile_path(self.tile)) } else { StepView::Download(self.url@) },
    {
        if self.disk_cache {
            let mut p = String::new();
            push_tile_path(&mut p, self.tile);
            JobStep::ReadCache(p)
        } else {
            JobStep::Download(self.url.clone())
        }
    }

    /// The step that follows `ev`.
    pub fn on_event(&self, ev: JobEvent) -> (r: JobStep)
        ensures
            r@ == step_after(self.disk_cache, self.tile, self.url@, ev@),
    {
        match ev {
            JobEvent::CacheHit(b) => decode_job_step(&b),
            JobEvent::CacheMiss => JobStep::Download(self.url.clone()),
            JobEvent::CacheFailed => JobStep::Abandon,
            JobEvent::Downloaded(status, b) => {
                if status < 200 || status > 299 {
                    JobStep::Abandon
                } else if self.disk_cache {
                    let mut p = String::new();
                    push_tile_path(&mut p, self.tile);
                    JobStep::Store(p, b)
                } else {
                    decode_job_step(&b)
                }
            },
            JobEvent::DownloadFailed => JobStep::Abandon,
            JobEvent::Stored(b) => decode_job_step(&b),
            JobEvent::StoreFailed => JobStep::Abandon,
        }
    }
}

/// A tile whose cache file is there needs no network: the job starts by reading the
/// cache, and a hit leads straight to publishing the decoded image (or to giving up
/// where the bytes hold none), never to a download.
pub proof fn lemma_cache_hit_skips_network(tile: TileId, url: Seq<char>, bytes: Seq<u8>)
    ensures
        step_after(true, tile, url, EventView::CacheHit(bytes)) == decode_step(bytes),
        !(step_after(true, tile, url, EventView::CacheHit(bytes)) is Download),
        raster_of(bytes) is Some ==> step_after(true, tile, url, EventView::CacheHit(bytes)) is Publish,
{
}

} // verus!
