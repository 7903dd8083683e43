use vstd::prelude::*;
use std::collections::HashMap;

use crate::errors::Error;
use crate::image::{Bounds, TextureUpload, disjoint, region_bytes};
use crate::text::{ATLAS_SIZE, FontPosition, GlyphAtlas, GlyphSlot, packing_fits, placement, top_rows};

verus! {

broadcast use vstd::std_specs::hash::group_hash_axioms;

/// Where a glyph's texels lie in its atlas; all zero for a glyph without pixels.
#[derive(Debug, Clone, Copy, PartialEq, Eq, Structural)]
pub struct GlyphPlacement {
    pub x: u32,
    pub y: u32,
    pub width: u32,
    pub height: u32,
}

impl GlyphPlacement {
    /// The glyph has no pixels.
    pub open spec fn is_empty(self) -> bool {
        self.width == 0 || self.height == 0
    }

    /// The region of the atlas the glyph covers.
    pub open spec fn bounds(self) -> Bounds {
        Bounds { x: self.x, y: self.y, width: self.width, height: self.height }
    }
}

/// The key of a glyph: its character in the high half, the bits of its size in the low half.
pub open spec fn key_of(c: char, size_bits: u32) -> u64 {
    ((c as u32) as int * 0x1_0000_0000 + size_bits as int) as u64
}

/// The key under which a glyph of character `c` at the size with bits `size_bits` is cached.
pub fn glyph_key(c: char, size_bits: u32) -> (k: u64)
    ensures
        k == key_of(c, size_bits),
{
    let code = c as u32;
    (code as u64) * 0x1_0000_0000 + (size_bits as u64)
}

/// Different glyphs, or one glyph at different sizes, have different keys.
pub proof fn lemma_glyph_keys_distinct(c1: char, b1: u32, c2: char, b2: u32)
    requires
        c1 != c2 || b1 != b2,
    ensures
        key_of(c1, b1) != key_of(c2, b2),
{
    let n1 = (c1 as u32) as int;
    let n2 = (c2 as u32) as int;
    assert(c1 != c2 ==> n1 != n2);
}

/// A cached glyph with pixels is one of the glyphs packed into the atlas.
pub open spec fn in_atlas(glyphs: Seq<(Bounds, Seq<u8>)>, p: GlyphPlacement) -> bool {
    p.is_empty() || exists|i: int| 0 <= i < glyphs.len() && glyphs[i].0 == p.bounds()
}

/// The glyphs of a font packed into its atlas, by key, each with the metrics `M` it was
/// rasterized with.
pub struct GlyphCache<M> {
    atlas: GlyphAtlas,
    entries: HashMap<u64, (GlyphPlacement, M)>,
}

impl<M> GlyphCache<M> {
    /// The atlas the glyphs are packed into.
    pub closed spec fn atlas_state(&self) -> GlyphAtlas {
        self.atlas
    }

    /// The cached glyphs by key.
    pub closed spec fn cached(&self) -> Map<u64, (GlyphPlacement, M)> {
        self.entries@
    }

    /// The atlas is well formed, every cached glyph with pixels is packed in it, and no two
    /// keys share a packed glyph.
    pub open spec fn wf(&self) -> bool {
        &&& self.atlas_state().wf()
        &&& forall|k: u64| #[trigger] self.cached().contains_key(k) ==> in_atlas(self.atlas_state().glyphs(), self.cached()[k].0)
        &&& forall|k1: u64, k2: u64|
            #![trigger self.cached().contains_key(k1), self.cached().contains_key(k2)]
            self.cached().contains_key(k1) && self.cached().contains_key(k2) && k1 != k2 && !self.cached()[k1].0.is_empty()
                && !self.cached()[k2].0.is_empty() ==> self.cached()[k1].0.bounds() != self.cached()[k2].0.bounds()
    }

    /// No glyphs, and an empty atlas of `ATLAS_SIZE` by `ATLAS_SIZE` texels.
    pub fn new() -> (c: Self)
        ensures
            c.wf(),
            c.cached() == Map::<u64, (GlyphPlacement, M)>::empty(),
            c.atlas_state().image().img_width() == ATLAS_SIZE,
            c.atlas_state().image().img_height() == ATLAS_SIZE,
            c.atlas_state().image().pixels() == Seq::new((ATLAS_SIZE * ATLAS_SIZE * 4) as nat, |i: int| 0u8),
            c.atlas_state().image().dirty() == Some(top_rows(ATLAS_SIZE as int, ATLAS_SIZE as int)),
            c.atlas_state().pos() == (FontPosition { current_x: 0, current_y: 0, row_height: 0 }),
            c.atlas_state().glyphs() == Seq::<(Bounds, Seq<u8>)>::empty(),
    {
        GlyphCache { atlas: GlyphAtlas::new(), entries: HashMap::new() }
    }

    /// The atlas the glyphs are packed into.
    pub fn atlas(&self) -> (a: &GlyphAtlas)
        ensures
            *a == self.atlas_state(),
    {
        &self.atlas
    }

    /// The glyph cached under `key`, if any.
    pub fn get(&self, key: u64) -> (r: Option<&(GlyphPlacement, M)>)
        ensures
            r == if self.cached().contains_key(key) {
                Some(&self.cached()[key])
            } else {
                None::<&(GlyphPlacement, M)>
            },
    {
        self.entries.get(&key)
    }

    /// Packs the glyph with the given size and coverage bitmap into the atlas and caches it
    /// under `key` with `metrics`. A glyph without pixels is cached with an all-zero placement
    /// and takes no space. When the atlas is full at its maximum size it is cleared, and so
    /// is the cache: `None` is returned and every glyph must be loaded again.
    pub fn load(&mut self, key: u64, width: u32, height: u32, coverage: &[u8], metrics: M) -> (r: Result<
        Option<GlyphPlacement>,
        Error,
    >)
        requires
            old(self).wf(),
            packing_fits(old(self).atlas_state().pos(), width as int, height as int),
            coverage@.len() * 4 <= usize::MAX,
        ensures
            final(self).wf(),
            match r {
                Ok(Some(p)) => {
                    &&& placement(
                        old(self).atlas_state(),
                        final(self).atlas_state(),
                        width,
                        height,
                        coverage@,
                        if p.is_empty() {
                            Ok::<GlyphSlot, Error>(GlyphSlot::Empty)
                        } else {
                            Ok::<GlyphSlot, Error>(GlyphSlot::Placed { x: p.x, y: p.y })
                        },
                    )
                    &&& (p.is_empty() ==> p == GlyphPlacement { x: 0, y: 0, width: 0, height: 0 })
                    &&& (!p.is_empty() ==> p.width == width && p.height == height)
                    &&& final(self).cached() == old(self).cached().insert(key, (p, metrics))
                },
                Ok(None) => {
                    &&& placement(
                        old(self).atlas_state(),
                        final(self).atlas_state(),
                        width,
                        height,
                        coverage@,
                        Ok::<GlyphSlot, Error>(GlyphSlot::AtlasReset),
                    )
                    &&& final(self).cached() == Map::<u64, (GlyphPlacement, M)>::empty()
                },
                Err(e) => {
                    &&& placement(
                        old(self).atlas_state(),
                        final(self).atlas_state(),
                        width,
                        height,
                        coverage@,
                        Err::<GlyphSlot, Error>(e),
                    )
                    &&& final(self).cached() == old(self).cached()
                },
            },
    {
        let ghost old_glyphs = old(self).atlas_state().glyphs();
        let ghost old_cached = old(self).cached();
        let slot = self.atlas.place_glyph(width, height, coverage);
        match slot {
            Ok(GlyphSlot::Placed { x, y }) => {
                let p = GlyphPlacement { x, y, width, height };
                self.entries.insert(key, (p, metrics));
                proof {
                    let gs = self.atlas.glyphs();
                    let n = old_glyphs.len() as int;
                    assert(gs == old_glyphs.push((p.bounds(), gs[n].1)));
                    assert(gs[n].0 == p.bounds());
                    assert forall|k: u64| #[trigger] self.cached().contains_key(k) implies in_atlas(gs, self.cached()[k].0) by {
                        if k != key {
                            assert(old(self).cached().contains_key(k));
                            assert(in_atlas(old_glyphs, old_cached[k].0));
                            if !old_cached[k].0.is_empty() {
                                let i = choose|i: int| 0 <= i < old_glyphs.len() && old_glyphs[i].0 == old_cached[k].0.bounds();
                                assert(gs[i] == old_glyphs[i]);
                            }
                        }
                    }
                    assert forall|k1: u64, k2: u64|
                        #![trigger self.cached().contains_key(k1), self.cached().contains_key(k2)]
                        self.cached().contains_key(k1) && self.cached().contains_key(k2) && k1 != k2
                            && !self.cached()[k1].0.is_empty() && !self.cached()[k2].0.is_empty() implies self.cached()[k1].0.bounds()
                        != self.cached()[k2].0.bounds() by {
                        if k1 != key && k2 != key {
                            assert(old(self).cached().contains_key(k1) && old(self).cached().contains_key(k2));
                        } else {
                            let other = if k1 == key { k2 } else { k1 };
                            assert(old(self).cached().contains_key(other));
                            assert(in_atlas(old_glyphs, old_cached[other].0));
                            let i = choose|i: int| 0 <= i < old_glyphs.len() && old_glyphs[i].0 == old_cached[other].0.bounds();
                            assert(gs[i] == old_glyphs[i]);
                            assert(disjoint(gs[i].0, gs[n].0));
                        }
                    }
                }
                Ok(Some(p))
            },
            Ok(GlyphSlot::Empty) => {
                let p = GlyphPlacement { x: 0, y: 0, width: 0, height: 0 };
                self.entries.insert(key, (p, metrics));
                proof {
                    assert forall|k: u64| #[trigger] self.cached().contains_key(k) implies in_atlas(
                        self.atlas.glyphs(),
                        self.cached()[k].0,
                    ) by {
                        if k != key {
                            assert(old(self).cached().contains_key(k));
                        }
                    }
                    assert forall|k1: u64, k2: u64|
                        #![trigger self.cached().contains_key(k1), self.cached().contains_key(k2)]
                        self.cached().contains_key(k1) && self.cached().contains_key(k2) && k1 != k2
                            && !self.cached()[k1].0.is_empty() && !self.cached()[k2].0.is_empty() implies self.cached()[k1].0.bounds()
                        != self.cached()[k2].0.bounds() by {
                        assert(old(self).cached().contains_key(k1) && old(self).cached().contains_key(k2));
                    }
                }
                Ok(Some(p))
            },
            Ok(GlyphSlot::AtlasReset) => {
                self.entries.clear();
                Ok(None)
            },
            Err(e) => {
                proof {
                    assert forall|k: u64| #[trigger] self.cached().contains_key(k) implies in_atlas(
                        self.atlas.glyphs(),
                        self.cached()[k].0,
                    ) by {
                        assert(old(self).cached().contains_key(k));
                        assert(in_atlas(old_glyphs, old_cached[k].0));
                    }
                }
                Err(e)
            },
        }
    }

    /// Takes the region of the atlas texture changed since its last upload, with the buffer
    /// layout of the upload, and marks the texture as uploaded; the glyphs stay as they are.
    pub fn take_upload(&mut self) -> (u: Option<TextureUpload>)
        requires
            old(self).wf(),
        ensures
            final(self).wf(),
            final(self).cached() == old(self).cached(),
            final(self).atlas_state().pos() == old(self).atlas_state().pos(),
            final(self).atlas_state().glyphs() == old(self).atlas_state().glyphs(),
            final(self).atlas_state().image().img_width() == old(self).atlas_state().image().img_width(),
            final(self).atlas_state().image().img_height() == old(self).atlas_state().image().img_height(),
            final(self).atlas_state().image().pixels() == old(self).atlas_state().image().pixels(),
            final(self).atlas_state().image().dirty() is None,
            match old(self).atlas_state().image().dirty() {
                None => u is None,
                Some(zone) => u == Some(
                    TextureUpload {
                        zone,
                        offset: ((zone.y * ATLAS_SIZE + zone.x) * 4) as u64,
                        bytes_per_row: (ATLAS_SIZE * 4) as u32,
                        rows_per_image: old(self).atlas_state().image().img_height(),
                    },
                ),
            },
    {
        let u = self.atlas.take_upload();
        proof {
            assert forall|k: u64| #[trigger] self.cached().contains_key(k) implies in_atlas(
                self.atlas_state().glyphs(),
                self.cached()[k].0,
            ) by {
                assert(old(self).cached().contains_key(k));
            }
            assert forall|k1: u64, k2: u64|
                #![trigger self.cached().contains_key(k1), self.cached().contains_key(k2)]
                self.cached().contains_key(k1) && self.cached().contains_key(k2) && k1 != k2
                    && !self.cached()[k1].0.is_empty() && !self.cached()[k2].0.is_empty() implies self.cached()[k1].0.bounds()
                != self.cached()[k2].0.bounds() by {
                assert(old(self).cached().contains_key(k1) && old(self).cached().contains_key(k2));
            }
        }
        u
    }
}

/// Every cached glyph with pixels reads back its own texels from the atlas, and no two
/// cached glyphs share a texel.
pub proof fn lemma_cached_glyphs_intact<M>(c: GlyphCache<M>)
    requires
        c.wf(),
    ensures
        forall|k: u64|
            #[trigger] c.cached().contains_key(k) && !c.cached()[k].0.is_empty() ==> exists|i: int|
                0 <= i < c.atlas_state().glyphs().len() && c.atlas_state().glyphs()[i].0 == c.cached()[k].0.bounds()
                    && region_bytes(
                    c.atlas_state().image().pixels(),
                    ATLAS_SIZE as int,
                    c.cached()[k].0.bounds(),
                ) == c.atlas_state().glyphs()[i].1,
        forall|k1: u64, k2: u64|
            #![trigger c.cached().contains_key(k1), c.cached().contains_key(k2)]
            c.cached().contains_key(k1) && c.cached().contains_key(k2) && k1 != k2 && !c.cached()[k1].0.is_empty()
                && !c.cached()[k2].0.is_empty() ==> disjoint(c.cached()[k1].0.bounds(), c.cached()[k2].0.bounds()),
{
    let gs = c.atlas_state().glyphs();
    assert forall|k: u64|
        #[trigger] c.cached().contains_key(k) && !c.cached()[k].0.is_empty() implies exists|i: int|
            0 <= i < gs.len() && gs[i].0 == c.cached()[k].0.bounds() && region_bytes(
                c.atlas_state().image().pixels(),
                ATLAS_SIZE as int,
                c.cached()[k].0.bounds(),
            ) == gs[i].1 by {
        assert(in_atlas(gs, c.cached()[k].0));
        let i = choose|i: int| 0 <= i < gs.len() && gs[i].0 == c.cached()[k].0.bounds();
        assert(gs[i] == gs[i]);
    }
    assert forall|k1: u64, k2: u64|
        #![trigger c.cached().contains_key(k1), c.cached().contains_key(k2)]
        c.cached().contains_key(k1) && c.cached().contains_key(k2) && k1 != k2 && !c.cached()[k1].0.is_empty()
            && !c.cached()[k2].0.is_empty() implies disjoint(c.cached()[k1].0.bounds(), c.cached()[k2].0.bounds()) by {
        assert(in_atlas(gs, c.cached()[k1].0));
        assert(in_atlas(gs, c.cached()[k2].0));
        let i = choose|i: int| 0 <= i < gs.len() && gs[i].0 == c.cached()[k1].0.bounds();
        let j = choose|j: int| 0 <= j < gs.len() && gs[j].0 == c.cached()[k2].0.bounds();
        assert(i != j);
        assert(disjoint(gs[i].0, gs[j].0));
    }
}

} // verus!
