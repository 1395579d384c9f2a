//! iPod-style Cover Flow, as far as it is decided what is drawn: one cover per album run of the queue, each
//! at the best detail there is of it, and which textures that takes.
//!
//! Where on the screen the covers are, and how they are lit, is up to whoever draws them.

use crate::covers::{FULL, THUMB};
use crate::hires::{resident, slot_of, HiResCache, HiResView, Pixels};
use crate::library::Rgb;
use crate::model::{album_runs, lemma_runs, runs_of, App, QueueItem};
use vstd::prelude::*;

verus! {

/// A cover to show in the flow, at whatever detail is available: the album's accent color (known
/// from the persisted index before any pixels load), the thumbnail, and the on-demand high-res
/// version -- the best resident tier is drawn.
#[derive(Debug)]
pub struct FlowCover {
    /// The cover art's id when pixels exist; otherwise any stable stand-in (the album id) -- it
    /// only namespaces the texture cache.
    pub id: u64,
    /// Whether the thumbnail is loaded.
    pub thumb: bool,
    pub accent: Option<Rgb>,
    pub full: Option<Pixels>,
}

/// The detail tiers a cover can be drawn at, lowest first.
#[derive(Debug, Clone, Copy, PartialEq, Eq, Hash, Structural)]
pub enum Tier {
    /// A solid quad of the album's accent color: the zeroth level of detail, before any pixels.
    Accent,
    Thumb,
    Full,
}

/// Texture cache key: a cover id plus its detail tier. Keying on the tier lets a cover's
/// uploads coexist, so a swap is just "draw the better key once it exists".
#[derive(Debug, Clone, Copy, PartialEq, Eq, Hash, Structural)]
pub struct TexKey {
    pub id: u64,
    pub tier: Tier,
}

/// Texture cache key used for items without cover art.
pub open spec fn placeholder() -> TexKey {
    TexKey { id: u64::MAX, tier: Tier::Accent }
}

/// A texture that is to be there, and its edge in pixels.
#[derive(Debug, Clone, Copy, PartialEq, Eq, Structural)]
pub struct Upload {
    pub key: TexKey,
    pub edge: u32,
}

/// The tier a cover is drawn at.
pub open spec fn tier_of(cover: FlowCover) -> Option<Tier> {
    if cover.full is Some {
        Some(Tier::Full)
    } else if cover.thumb {
        Some(Tier::Thumb)
    } else if cover.accent is Some {
        Some(Tier::Accent)
    } else {
        None
    }
}

/// The edge of a tier's texture: a single pixel stretches over the whole quad for an accent.
pub open spec fn edge_of(tier: Tier) -> u32 {
    match tier {
        Tier::Full => FULL,
        Tier::Thumb => THUMB,
        Tier::Accent => 1,
    }
}

/// Chooses which tier to draw for a cover -- the best of high-res, thumbnail, and accent color --
/// returning its texture key and the texture to upload, unless that key is already resident.
pub fn cover_texture(cover: &Option<FlowCover>) -> (r: (TexKey, Option<Upload>))
    ensures
        match *cover {
            Some(cover) => match tier_of(cover) {
                Some(tier) => r.0 == (TexKey { id: cover.id, tier }) && r.1 == Some(
                    Upload { key: r.0, edge: edge_of(tier) },
                ),
                None => r.0 == placeholder() && r.1 is None,
            },
            None => r.0 == placeholder() && r.1 is None,
        },
{
    let none: TexKey = TexKey { id: u64::MAX, tier: Tier::Accent };
    match cover {
        Some(cover) => if cover.full.is_some() {
            let key: TexKey = TexKey { id: cover.id, tier: Tier::Full };
            (key, Some(Upload { key, edge: FULL }))
        } else if cover.thumb {
            let key: TexKey = TexKey { id: cover.id, tier: Tier::Thumb };
            (key, Some(Upload { key, edge: THUMB }))
        } else if cover.accent.is_some() {
            let key: TexKey = TexKey { id: cover.id, tier: Tier::Accent };
            (key, Some(Upload { key, edge: 1 }))
        } else {
            (none, None)
        },
        None => (none, None),
    }
}

/// The cover of a queue item in the flow, at whatever detail exists yet. Only an album with nothing known
/// at all falls to the placeholder.
pub open spec fn flows(item: QueueItem, hires: HiResView, cover: Option<FlowCover>) -> bool {
    match (item.cover, item.accent) {
        (None, None) => cover is None,
        (art, accent) => {
            &&& cover matches Some(cover)
            &&& cover.accent == accent
            &&& cover.thumb == (art is Some)
            &&& match art {
                Some(art) => {
                    &&& cover.id == art.id
                    &&& cover.full == (if resident(hires.entries, art.id) {
                        Some(hires.entries[slot_of(hires.entries, art.id)].pixels)
                    } else {
                        None
                    })
                },
                None => cover.id == item.album_id && cover.full is None,
            }
        },
    }
}

/// The cover of a queue item in the flow.
pub fn flow_cover(item: &QueueItem, hires: &HiResCache) -> (cover: Option<FlowCover>)
    requires
        hires.wf(),
    ensures
        flows(*item, hires@, cover),
{
    match &item.cover {
        Some(art) => {
            let full: Option<Pixels> = match hires.peek(art.id) {
                Some(pixels) => Some(pixels.clone()),
                None => None,
            };
            Some(FlowCover { id: art.id, thumb: true, accent: item.accent, full })
        },
        None => match item.accent {
            Some(accent) => Some(FlowCover { id: item.album_id, thumb: false, accent: Some(accent), full: None }),
            None => None,
        },
    }
}

/// The covers of the flow: one per album run of the queue, that of its first track.
pub fn flow_covers(app: &App) -> (covers: Vec<Option<FlowCover>>)
    requires
        app.wf(),
    ensures
        covers@.len() == runs_of(app.queue@).len(),
        forall|k: int|
            0 <= k < covers@.len() ==> flows(
                app.queue@[runs_of(app.queue@)[k].start as int],
                app.hires@,
                #[trigger] covers@[k],
            ),
{
    let runs = album_runs(&app.queue);
    assert(app.queue.len() == app.queue@.len());
    proof {
        lemma_runs(app.queue@, app.queue@.len() as int);
    }
    let mut covers: Vec<Option<FlowCover>> = Vec::new();
    while covers.len() < runs.len()
        invariant
            app.wf(),
            covers.len() <= runs.len(),
            runs@ == runs_of(app.queue@),
            crate::model::are_runs(app.queue@, runs@, app.queue@.len() as int),
            forall|k: int|
                0 <= k < covers@.len() ==> flows(
                    app.queue@[runs@[k].start as int],
                    app.hires@,
                    #[trigger] covers@[k],
                ),
        decreases runs.len() - covers.len(),
    {
        let k: usize = covers.len();
        assert(crate::model::is_run(app.queue@, runs@[k as int], app.queue@.len() as int));
        covers.push(flow_cover(&app.queue[runs[k].start], &app.hires));
    }
    covers
}

/// The textures that stay: those drawn this frame, so that memory tracks the visible carousel rather than
/// every cover ever shown.
pub open spec fn kept(held: Seq<TexKey>, drawn: Seq<TexKey>) -> Seq<TexKey>
    decreases held.len(),
{
    if held.len() == 0 {
        Seq::empty()
    } else {
        let before = kept(held.drop_last(), drawn);
        if drawn.contains(held.last()) {
            before.push(held.last())
        } else {
            before
        }
    }
}

fn is_among(key: TexKey, keys: &Vec<TexKey>) -> (r: bool)
    ensures
        r == keys@.contains(key),
{
    let mut k: usize = 0;
    while k < keys.len()
        invariant
            k <= keys.len(),
            forall|i: int| 0 <= i < k ==> keys@[i] != key,
        decreases keys.len() - k,
    {
        if keys[k] == key {
            return true;
        }
        k = k + 1;
    }
    false
}

/// Drops the textures that are not drawn this frame.
pub fn retain(held: &Vec<TexKey>, drawn: &Vec<TexKey>) -> (r: Vec<TexKey>)
    ensures
        r@ == kept(held@, drawn@),
{
    let mut r: Vec<TexKey> = Vec::new();
    let mut k: usize = 0;
    assert(held@.take(0) =~= Seq::empty());
    while k < held.len()
        invariant
            k <= held.len(),
            r@ == kept(held@.take(k as int), drawn@),
        decreases held.len() - k,
    {
        assert(held@.take(k + 1).drop_last() =~= held@.take(k as int));
        assert(held@.take(k + 1).last() == held@[k as int]);
        if is_among(held[k], drawn) {
            r.push(held[k]);
        }
        k = k + 1;
    }
    assert(held@.take(k as int) =~= held@);
    r
}

/// A texture that is drawn and held stays held.
pub proof fn law_what_is_drawn_stays(held: Seq<TexKey>, drawn: Seq<TexKey>, key: TexKey)
    ensures
        kept(held, drawn).contains(key) <==> held.contains(key) && drawn.contains(key),
    decreases held.len(),
{
    if held.len() > 0 {
        let init = held.drop_last();
        law_what_is_drawn_stays(init, drawn, key);
        let before = kept(init, drawn);
        let after = kept(held, drawn);
        if drawn.contains(held.last()) {
            vstd::seq_lib::lemma_seq_contains_after_push(before, held.last(), key);
        }
        assert(held =~= init.push(held.last()));
        vstd::seq_lib::lemma_seq_contains_after_push(init, held.last(), key);
    }
}

/// Better detail never makes a cover worse: once the high-res version is there it is what is drawn, and a
/// loaded thumbnail is never given up for the accent color.
pub proof fn law_detail_only_improves(before: FlowCover, after: FlowCover)
    requires
        before.full is Some ==> after.full is Some,
        before.thumb ==> after.thumb,
        before.accent is Some ==> after.accent is Some,
    ensures
        tier_of(before) is Some ==> tier_of(after) is Some,
        tier_of(before) == Some(Tier::Full) ==> tier_of(after) == Some(Tier::Full),
        tier_of(before) == Some(Tier::Thumb) ==> tier_of(after) != Some(Tier::Accent),
{
}

/// The best that there is of a cover is drawn: the full picture, else the thumbnail, else the accent color; and at
/// the size of that.
pub proof fn law_the_best_is_drawn(cover: FlowCover)
    ensures
        cover.full is Some ==> tier_of(cover) == Some(Tier::Full),
        cover.full is None && cover.thumb ==> tier_of(cover) == Some(Tier::Thumb),
        cover.full is None && !cover.thumb && cover.accent is Some ==> tier_of(cover) == Some(Tier::Accent),
        cover.full is None && !cover.thumb && cover.accent is None ==> tier_of(cover) is None,
        edge_of(Tier::Full) == 900,
        edge_of(Tier::Thumb) == 320,
        edge_of(Tier::Accent) == 1,
{
}

/// A cover of the flow is the playing item's: its art where there is some, in full where that is there; else its
/// accent; and nothing where it has neither.
pub proof fn law_the_flow_shows_what_an_item_has(item: QueueItem, hires: HiResView, cover: Option<FlowCover>)
    requires
        flows(item, hires, cover),
    ensures
        cover is None <==> item.cover is None && item.accent is None,
        cover is Some ==> cover->0.accent == item.accent && cover->0.thumb == item.cover is Some,
        item.cover matches Some(art) ==> cover->0.id == art.id,
        item.cover is None && item.accent is Some ==> cover->0.id == item.album_id && cover->0.full is None,
{
}

} // verus!
