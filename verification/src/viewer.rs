//! The view controller: owns the cache, tracks which image is active, and
//! holds the transient per-image render state — a lazily created derived
//! texture and the pan/zoom transform — which is invalidated exactly when the
//! active image changes.
//!
//! A load goes: existence check (the caller's, it owns the file system), then
//! `load_cached`; on a miss the caller decodes and, on success, hands the
//! pixels to `load_decoded`. A failed decode calls nothing, so the current
//! view survives it untouched.
use crate::cache::ImageBuf;
use crate::cache::ImageCache;
use crate::cache::ImgView;
use crate::cache::has_key;
use crate::cache::img_wf;
use crate::cache::lemma_key_index;
use crate::cache::lru_put_model;
use crate::cache::promote;
use crate::cache::value_at;
use crate::transform::SCALE_ONE_MILLI;
use crate::transform::Transform;
use vstd::prelude::*;

verus! {

/// What a load request came to: the image is on screen, the path does not
/// exist, or the decoder rejected the file (with its reason).
pub enum LoadOutcome {
    Displayed,
    NotFound,
    DecodeFailed(String),
}

/// The view controller's state.
pub struct Viewer {
    /// The bounded decoded-image cache.
    pub cache: ImageCache,
    /// The key of the image currently selected for display, if any.
    pub current: Option<Vec<u8>>,
    /// The renderer's handle for the derived texture, present only once the
    /// renderer has synthesized it for the active image.
    pub texture: Option<u64>,
    /// The pan/zoom transform of the active image.
    pub transform: Transform,
}

impl Viewer {
    /// The cache is well-formed, the transform is in range, and a derived
    /// texture exists only while some image is active.
    pub open spec fn wf(&self) -> bool {
        &&& self.cache.wf()
        &&& self.transform.wf()
        &&& self.texture is Some ==> self.current is Some
    }

    /// A controller with an empty cache of the given capacity, nothing
    /// active, and the identity transform. A zero capacity is a
    /// configuration bug and is ruled out here.
    pub fn new(cap: usize) -> (v: Viewer)
        requires
            1 <= cap,
        ensures
            v.wf(),
            v.cache@ == Seq::<(Seq<u8>, ImgView)>::empty(),
            v.cache.capacity_spec() == cap,
            v.current is None,
            v.texture is None,
            v.transform.scale_milli == SCALE_ONE_MILLI,
            v.transform.offset_x == 0,
            v.transform.offset_y == 0,
    {
        Viewer {
            cache: ImageCache::new(cap),
            current: None,
            texture: None,
            transform: Transform::identity(),
        }
    }

    /// The cache arm of a load. A hit takes the image from the cache — no
    /// disk access, no decode — promotes it, makes the key active, drops the
    /// stale texture and resets the transform. A miss changes nothing at
    /// all: the caller decodes and either calls `load_decoded` or, on
    /// failure, leaves the current view standing.
    pub fn load_cached(&mut self, path: &Vec<u8>) -> (hit: bool)
        requires
            old(self).wf(),
        ensures
            final(self).wf(),
            final(self).cache.capacity_spec() == old(self).cache.capacity_spec(),
            hit == has_key(old(self).cache@, path@),
            hit ==> ({
                &&& final(self).cache@ == promote(old(self).cache@, path@)
                &&& final(self).current is Some
                &&& final(self).current->Some_0@ == path@
                &&& final(self).texture is None
                &&& final(self).transform.scale_milli == SCALE_ONE_MILLI
                &&& final(self).transform.offset_x == 0
                &&& final(self).transform.offset_y == 0
            }),
            !hit ==> ({
                &&& final(self).cache@ == old(self).cache@
                &&& final(self).current == old(self).current
                &&& final(self).texture == old(self).texture
                &&& final(self).transform == old(self).transform
            }),
    {
        let r = self.cache.get(path);
        match r {
            Some(_img) => {
                let key: Vec<u8> = path.clone();
                proof {
                    assert(key@ =~= path@);
                }
                self.current = Some(key);
                self.texture = None;
                self.transform = Transform::identity();
                true
            },
            None => false,
        }
    }

    /// The decode arm of a load, after a miss: the fresh image is inserted —
    /// evicting the least recently used entry if the cache is full — the key
    /// becomes active, the stale texture is dropped and the transform
    /// resets.
    pub fn load_decoded(&mut self, path: Vec<u8>, img: ImageBuf)
        requires
            old(self).wf(),
            img_wf(img@),
        ensures
            final(self).wf(),
            final(self).cache.capacity_spec() == old(self).cache.capacity_spec(),
            final(self).cache@ == lru_put_model(
                old(self).cache@,
                path@,
                img@,
                old(self).cache.capacity_spec(),
            ),
            final(self).cache@.len() <= old(self).cache.capacity_spec(),
            has_key(final(self).cache@, path@),
            value_at(final(self).cache@, path@) == img@,
            final(self).current is Some,
            final(self).current->Some_0@ == path@,
            final(self).texture is None,
            final(self).transform.scale_milli == SCALE_ONE_MILLI,
            final(self).transform.offset_x == 0,
            final(self).transform.offset_y == 0,
    {
        let key: Vec<u8> = path.clone();
        proof {
            assert(key@ =~= path@);
        }
        self.cache.put(path, img);
        self.current = Some(key);
        self.texture = None;
        self.transform = Transform::identity();
    }

    /// Render-time fetch of the active image, for synthesizing the derived
    /// texture: the cache is re-read (promoting the entry) rather than the
    /// image having been retained alongside the key. Nothing comes back when
    /// no image is active, or when later loads have evicted the active entry
    /// — the accepted stale-key case, which the caller mends by a fresh
    /// decode instead of crashing.
    pub fn fetch_active(&mut self) -> (r: Option<ImageBuf>)
        requires
            old(self).wf(),
        ensures
            final(self).wf(),
            final(self).cache.capacity_spec() == old(self).cache.capacity_spec(),
            final(self).current == old(self).current,
            final(self).texture == old(self).texture,
            final(self).transform == old(self).transform,
            match old(self).current {
                None => r is None && final(self).cache@ == old(self).cache@,
                Some(p) => ({
                    &&& has_key(old(self).cache@, p@) ==> ({
                        &&& r is Some
                        &&& r->Some_0@ == value_at(old(self).cache@, p@)
                        &&& img_wf(r->Some_0@)
                        &&& final(self).cache@ == promote(old(self).cache@, p@)
                    })
                    &&& !has_key(old(self).cache@, p@) ==> ({
                        &&& r is None
                        &&& final(self).cache@ == old(self).cache@
                    })
                }),
            },
    {
        match &self.current {
            None => None,
            Some(p) => {
                let key: Vec<u8> = p.clone();
                proof {
                    assert(key@ =~= old(self).current->Some_0@);
                    if has_key(self.cache@, key@) {
                        lemma_key_index(self.cache@, key@);
                    }
                }
                self.cache.get(&key)
            },
        }
    }

    /// Records the renderer's handle once it has synthesized the derived
    /// texture for the active image; until the next load it will be reused
    /// as is.
    pub fn set_texture(&mut self, handle: u64)
        requires
            old(self).wf(),
            old(self).current is Some,
        ensures
            final(self).wf(),
            final(self).texture == Some(handle),
            final(self).cache@ == old(self).cache@,
            final(self).cache.capacity_spec() == old(self).cache.capacity_spec(),
            final(self).current == old(self).current,
            final(self).transform == old(self).transform,
    {
        self.texture = Some(handle);
    }
}

} // verus!
