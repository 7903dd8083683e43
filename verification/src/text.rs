use vstd::prelude::*;

use crate::errors::Error;
use crate::image::{
    Bounds, Image, TextureUpload, blitted_region, dirty_after_blit, disjoint, lemma_blit_preserves_disjoint,
    lemma_copy_rows_preserves, lemma_read_after_blit, region_bytes,
};

verus! {

/// The largest height a glyph atlas grows to before it is cleared.
pub const MAX_ATLAS_SIZE: u32 = 8192;

/// Space left between glyphs in an atlas.
pub const PADDING: u32 = 2;

/// Width and starting height of a glyph atlas.
pub const ATLAS_SIZE: u32 = 1024;

/// Horizontal alignment of text.
#[derive(Debug, Clone, Copy, PartialEq, Eq, Structural, Hash)]
pub enum HorizontalAlign {
    Left,
    Center,
    Right,
}

impl Default for HorizontalAlign {
    fn default() -> (a: Self)
        ensures
            a == HorizontalAlign::Left,
    {
        HorizontalAlign::Left
    }
}

/// Vertical alignment of text.
#[derive(Debug, Clone, Copy, PartialEq, Eq, Structural, Hash)]
pub enum VerticalAlign {
    Bottom,
    Center,
    Top,
}

impl Default for VerticalAlign {
    fn default() -> (a: Self)
        ensures
            a == VerticalAlign::Top,
    {
        VerticalAlign::Top
    }
}

/// The alignment of a block of text and of each of its lines.
#[derive(Debug, Clone, Copy, PartialEq, Eq, Structural, Hash)]
pub struct TextAlignment {
    pub horizontal: HorizontalAlign,
    pub vertical: VerticalAlign,
    pub line: HorizontalAlign,
}

impl Default for TextAlignment {
    fn default() -> (a: Self)
        ensures
            a == (TextAlignment {
                horizontal: HorizontalAlign::Left,
                vertical: VerticalAlign::Top,
                line: HorizontalAlign::Left,
            }),
    {
        TextAlignment {
            horizontal: HorizontalAlign::default(),
            vertical: VerticalAlign::default(),
            line: HorizontalAlign::default(),
        }
    }
}

/// Which font renders a glyph: `None` for the main font, when it has the glyph, else
/// `Some(i)` for the first fallback that has it, else `None` again (the main font's
/// placeholder glyph).
pub fn pick_glyph_font(main_has: bool, fallback_has: &[bool]) -> (f: Option<usize>)
    ensures
        main_has ==> f is None,
        !main_has ==> match f {
            Some(i) => {
                &&& i < fallback_has@.len()
                &&& fallback_has@[i as int]
                &&& forall|j: int| 0 <= j < i ==> !fallback_has@[j]
            },
            None => forall|j: int| 0 <= j < fallback_has@.len() ==> !fallback_has@[j],
        },
{
    if main_has {
        return None;
    }
    let n = fallback_has.len();
    let mut k: usize = 0;
    while k < n
        invariant
            k <= n,
            n == fallback_has@.len(),
            !main_has,
            forall|j: int| 0 <= j < k ==> !fallback_has@[j],
        decreases n - k,
    {
        if fallback_has[k] {
            return Some(k);
        }
        k = k + 1;
    }
    None
}

/// Whether a font has a glyph: when it does itself or one of its fallbacks does.
pub fn has_glyph(main_has: bool, fallback_has: &[bool]) -> (b: bool)
    ensures
        b == (main_has || exists|j: int| 0 <= j < fallback_has@.len() && fallback_has@[j]),
{
    if main_has {
        return true;
    }
    match pick_glyph_font(main_has, fallback_has) {
        Some(_) => true,
        None => false,
    }
}

/// RGBA8 texels for a glyph coverage bitmap: white, with the coverage as alpha.
pub open spec fn rgba_of(coverage: Seq<u8>) -> Seq<u8> {
    Seq::new(coverage.len() * 4, |i: int| if i % 4 == 3 { coverage[i / 4] } else { 255u8 })
}

/// Turns a glyph coverage bitmap into white RGBA8 texels with the coverage as alpha.
pub fn coverage_to_rgba(coverage: &[u8]) -> (rgba: Vec<u8>)
    requires
        coverage@.len() * 4 <= usize::MAX,
    ensures
        rgba@ == rgba_of(coverage@),
        rgba@.len() == coverage@.len() * 4,
        forall|i: int|
            #![trigger coverage@[i]]
            0 <= i < coverage@.len() ==> {
                &&& rgba@[4 * i] == 255u8
                &&& rgba@[4 * i + 1] == 255u8
                &&& rgba@[4 * i + 2] == 255u8
                &&& rgba@[4 * i + 3] == coverage@[i]
            },
{
    let n = coverage.len();
    let mut out: Vec<u8> = Vec::with_capacity(n * 4);
    let mut k: usize = 0;
    while k < n
        invariant
            k <= n,
            n == coverage@.len(),
            n * 4 <= usize::MAX,
            out@ == rgba_of(coverage@).take(k * 4),
        decreases n - k,
    {
        let a = coverage[k];
        out.push(255u8);
        out.push(255u8);
        out.push(255u8);
        out.push(a);
        k = k + 1;
        proof {
            assert forall|i: int| k * 4 - 4 <= i < k * 4 implies #[trigger] rgba_of(coverage@)[i]
                == out@[i] by {
                assert(i / 4 == k - 1);
            }
        }
        assert(out@ =~= rgba_of(coverage@).take(k * 4));
    }
    assert(out@ =~= rgba_of(coverage@));
    assert forall|i: int| #![trigger coverage@[i]] 0 <= i < coverage@.len() implies {
        &&& out@[4 * i] == 255u8
        &&& out@[4 * i + 1] == 255u8
        &&& out@[4 * i + 2] == 255u8
        &&& out@[4 * i + 3] == coverage@[i]
    } by {
        assert((4 * i + 3) / 4 == i);
        assert((4 * i) % 4 == 0 && (4 * i + 1) % 4 == 1 && (4 * i + 2) % 4 == 2 && (4 * i + 3) % 4 == 3);
    }
    out
}

/// The position at which the next glyph is packed into an atlas.
#[derive(Debug, Clone, Copy, PartialEq, Eq, Structural, Default)]
pub struct FontPosition {
    pub current_x: u32,
    pub current_y: u32,
    pub row_height: u32,
}

/// The height an atlas of height `h` grows to, by doubling, to fit `need` rows;
/// `None` when it reaches the maximum size first.
pub open spec fn grown_height(h: int, need: int) -> Option<int>
    decreases 2 * MAX_ATLAS_SIZE - h,
{
    if need <= h {
        Some(h)
    } else if h >= MAX_ATLAS_SIZE || h <= 0 {
        None
    } else {
        grown_height(2 * h, need)
    }
}

/// The full-width region covering the top `h` rows.
pub open spec fn top_rows(w: int, h: int) -> Bounds {
    Bounds { x: 0, y: 0, width: w as u32, height: h as u32 }
}

/// The pixels of a `w`-wide atlas of height `h` after its height has been doubled:
/// the old rows on top, transparent rows below.
pub open spec fn doubled(pixels: Seq<u8>, w: int, h: int) -> Seq<u8> {
    blitted_region(
        Seq::new((w * (2 * h) * 4) as nat, |i: int| 0u8),
        w,
        top_rows(w, h),
        region_bytes(pixels, w, top_rows(w, h)),
    )
}

/// The pixels of a `w`-wide atlas of height `h` after it has been doubled up to `target` rows.
pub open spec fn grown_pixels(pixels: Seq<u8>, w: int, h: int, target: int) -> Seq<u8>
    decreases (if target > h { target - h } else { 0 }),
{
    if h >= target || h <= 0 {
        pixels
    } else {
        grown_pixels(doubled(pixels, w, h), w, 2 * h, target)
    }
}

/// Where the next glyph of `width` goes: on the current row, or at the start of the next one.
pub open spec fn wrapped(pos: FontPosition, atlas_width: int, width: int) -> FontPosition {
    if pos.current_x + width + PADDING > atlas_width {
        FontPosition {
            current_x: 0,
            current_y: (pos.current_y + pos.row_height + PADDING) as u32,
            row_height: 0,
        }
    } else {
        pos
    }
}

/// The packing arithmetic for a glyph of the given size stays within `u32`: the row end,
/// and the glyph's bottom on the row it goes on.
pub open spec fn packing_fits(pos: FontPosition, width: int, height: int) -> bool {
    &&& pos.current_x + width + PADDING <= u32::MAX
    &&& if pos.current_x + width + PADDING > ATLAS_SIZE {
        pos.current_y + pos.row_height + PADDING + height + PADDING <= u32::MAX
    } else {
        pos.current_y + height + PADDING <= u32::MAX
    }
}

/// The outcome of packing a glyph into an atlas.
#[derive(Debug, Clone, Copy, PartialEq, Eq, Structural)]
pub enum GlyphSlot {
    /// The glyph has no pixels and takes no space.
    Empty,
    /// The glyph's texels were written with their top-left corner at `(x, y)`.
    Placed { x: u32, y: u32 },
    /// The atlas was full at its maximum size and has been cleared; every glyph must be
    /// requested again.
    AtlasReset,
}

/// What packing a glyph of `width` by `height` texels with the given coverage does to an
/// atlas `old`, giving `new` and the result `r`: a glyph without pixels changes nothing;
/// otherwise the glyph goes on the current row if it fits, else at the start of the next
/// row, and the atlas doubles in height until the row fits, unless it would pass
/// `MAX_ATLAS_SIZE`, in which case it is cleared and nothing is packed.
pub open spec fn placement(
    old: GlyphAtlas,
    new: GlyphAtlas,
    width: u32,
    height: u32,
    coverage: Seq<u8>,
    r: Result<GlyphSlot, Error>,
) -> bool {
    if width == 0 || height == 0 {
        r == Ok::<GlyphSlot, Error>(GlyphSlot::Empty) && new == old
    } else {
        let p1 = wrapped(old.pos(), ATLAS_SIZE as int, width as int);
        let target = p1.current_y + height + PADDING;
        let h0 = old.image().img_height() as int;
        match grown_height(h0, target) {
            None => {
                &&& r == Ok::<GlyphSlot, Error>(GlyphSlot::AtlasReset)
                &&& new.image().img_width() == ATLAS_SIZE
                &&& new.image().img_height() == ATLAS_SIZE
                &&& new.image().pixels() == Seq::new((ATLAS_SIZE * ATLAS_SIZE * 4) as nat, |i: int| 0u8)
                &&& new.image().dirty() == Some(top_rows(ATLAS_SIZE as int, ATLAS_SIZE as int))
                &&& new.pos() == (FontPosition { current_x: 0, current_y: 0, row_height: 0 })
                &&& new.glyphs() == Seq::<(Bounds, Seq<u8>)>::empty()
            },
            Some(h1) => {
                let grown = grown_pixels(old.image().pixels(), ATLAS_SIZE as int, h0, target);
                let dirty1 = if h1 > h0 {
                    Some(top_rows(ATLAS_SIZE as int, h1))
                } else {
                    old.image().dirty()
                };
                let region = Bounds { x: p1.current_x, y: p1.current_y, width, height };
                &&& new.image().img_width() == ATLAS_SIZE
                &&& new.image().img_height() == h1
                &&& (p1.current_x + width > ATLAS_SIZE ==> {
                    &&& r == Err::<GlyphSlot, Error>(
                        Error::BlitOutOfBounds {
                            x: p1.current_x,
                            y: p1.current_y,
                            width,
                            height,
                            img_width: ATLAS_SIZE,
                            img_height: h1 as u32,
                        },
                    )
                    &&& new.image().pixels() == grown
                    &&& new.image().dirty() == dirty1
                    &&& new.pos() == p1
                    &&& new.glyphs() == old.glyphs()
                })
                &&& (p1.current_x + width <= ATLAS_SIZE && coverage.len() * 4 < width * height * 4 ==> {
                    &&& r == Err::<GlyphSlot, Error>(
                        Error::BlitBufferTooSmall {
                            expected: (width * height * 4) as usize,
                            actual: (coverage.len() * 4) as usize,
                        },
                    )
                    &&& new.image().pixels() == grown
                    &&& new.image().dirty() == dirty1
                    &&& new.pos() == p1
                    &&& new.glyphs() == old.glyphs()
                })
                &&& (p1.current_x + width <= ATLAS_SIZE && coverage.len() * 4 >= width * height * 4 ==> {
                    &&& r == Ok::<GlyphSlot, Error>(GlyphSlot::Placed { x: p1.current_x, y: p1.current_y })
                    &&& new.image().pixels() == blitted_region(grown, ATLAS_SIZE as int, region, rgba_of(coverage))
                    &&& new.image().dirty() == Some(dirty_after_blit(dirty1, region))
                    &&& new.pos() == (FontPosition {
                        current_x: (p1.current_x + width + PADDING) as u32,
                        current_y: p1.current_y,
                        row_height: if p1.row_height >= height { p1.row_height } else { height },
                    })
                    &&& new.glyphs() == old.glyphs().push((region, rgba_of(coverage).take(width * height * 4)))
                })
            },
        }
    }
}

/// A glyph texture atlas packed row by row, as glyphs are first requested.
pub struct GlyphAtlas {
    atlas: Image,
    position: FontPosition,
    placed: Ghost<Seq<(Bounds, Seq<u8>)>>,
}

impl GlyphAtlas {
    /// The atlas texture.
    pub closed spec fn image(&self) -> Image {
        self.atlas
    }

    /// Where the next glyph goes.
    pub closed spec fn pos(&self) -> FontPosition {
        self.position
    }

    /// The glyphs packed since the atlas was last cleared: their regions and texels.
    pub closed spec fn glyphs(&self) -> Seq<(Bounds, Seq<u8>)> {
        self.placed@
    }

    /// Glyph `g` lies in the region packing has passed: on an earlier row, or earlier on
    /// the current row.
    pub open spec fn behind(g: Bounds, pos: FontPosition) -> bool {
        ||| g.bottom() + PADDING <= pos.current_y
        ||| (g.y == pos.current_y && g.right() + PADDING <= pos.current_x && g.height
            <= pos.row_height)
    }

    /// The atlas is `ATLAS_SIZE` wide and between `ATLAS_SIZE` and twice `MAX_ATLAS_SIZE`
    /// high; every packed glyph lies inside it, still holds its texels, lies behind the
    /// packing position, and shares no pixel with another packed glyph.
    pub open spec fn wf(&self) -> bool {
        let img = self.image();
        let gs = self.glyphs();
        &&& img.wf()
        &&& img.img_width() == ATLAS_SIZE
        &&& ATLAS_SIZE <= img.img_height() <= 2 * MAX_ATLAS_SIZE
        &&& forall|i: int|
            0 <= i < gs.len() ==> {
                let g = #[trigger] gs[i];
                &&& g.0.width > 0
                &&& g.0.height > 0
                &&& g.0.right() <= img.img_width()
                &&& g.0.bottom() <= img.img_height()
                &&& region_bytes(img.pixels(), img.img_width() as int, g.0) == g.1
                &&& Self::behind(g.0, self.pos())
            }
        &&& forall|i: int, j: int|
            0 <= i < gs.len() && 0 <= j < gs.len() && i != j ==> disjoint(
                #[trigger] gs[i].0,
                #[trigger] gs[j].0,
            )
    }

    /// An empty atlas of `ATLAS_SIZE` by `ATLAS_SIZE` texels.
    pub fn new() -> (a: Self)
        ensures
            a.wf(),
            a.image().img_width() == ATLAS_SIZE,
            a.image().img_height() == ATLAS_SIZE,
            a.image().pixels() == Seq::new((ATLAS_SIZE * ATLAS_SIZE * 4) as nat, |i: int| 0u8),
            a.image().dirty() == Some(top_rows(ATLAS_SIZE as int, ATLAS_SIZE as int)),
            a.pos() == (FontPosition { current_x: 0, current_y: 0, row_height: 0 }),
            a.glyphs() == Seq::<(Bounds, Seq<u8>)>::empty(),
    {
        GlyphAtlas {
            atlas: Image::new_empty(ATLAS_SIZE, ATLAS_SIZE),
            position: FontPosition { current_x: 0, current_y: 0, row_height: 0 },
            placed: Ghost(Seq::empty()),
        }
    }

    /// The atlas texture.
    pub fn atlas(&self) -> (img: &Image)
        ensures
            *img == self.image(),
    {
        &self.atlas
    }

    /// Where the next glyph goes.
    pub fn position(&self) -> (p: FontPosition)
        ensures
            p == self.pos(),
    {
        self.position
    }

    /// Takes the region of the atlas texture changed since its last upload, with the buffer
    /// layout of the upload, and marks the texture as uploaded; the glyphs stay as they are.
    pub fn take_upload(&mut self) -> (u: Option<TextureUpload>)
        requires
            old(self).wf(),
        ensures
            final(self).wf(),
            final(self).pos() == old(self).pos(),
            final(self).glyphs() == old(self).glyphs(),
            final(self).image().img_width() == old(self).image().img_width(),
            final(self).image().img_height() == old(self).image().img_height(),
            final(self).image().pixels() == old(self).image().pixels(),
            final(self).image().dirty() is None,
            match old(self).image().dirty() {
                None => u is None,
                Some(zone) => u == Some(
                    TextureUpload {
                        zone,
                        offset: ((zone.y * ATLAS_SIZE + zone.x) * 4) as u64,
                        bytes_per_row: (ATLAS_SIZE * 4) as u32,
                        rows_per_image: old(self).image().img_height(),
                    },
                ),
            },
    {
        let ghost before = self.atlas;
        let u = self.atlas.take_upload();
        proof {
            let gs = self.glyphs();
            assert(self.atlas.pixels() == before.pixels());
            let img = self.image();
            assert forall|i: int| 0 <= i < gs.len() implies {
                let g = #[trigger] gs[i];
                &&& g.0.width > 0
                &&& g.0.height > 0
                &&& g.0.right() <= img.img_width()
                &&& g.0.bottom() <= img.img_height()
                &&& region_bytes(img.pixels(), img.img_width() as int, g.0) == g.1
                &&& Self::behind(g.0, self.pos())
            } by {
                assert(old(self).glyphs()[i] == gs[i]);
                assert(old(self).image() == before);
            }
        }
        u
    }

    /// Doubles the height of the atlas, keeping its texels in the top half.
    fn resize_atlas(&mut self)
        requires
            old(self).wf(),
            old(self).image().img_height() < MAX_ATLAS_SIZE,
        ensures
            final(self).wf(),
            final(self).pos() == old(self).pos(),
            final(self).glyphs() == old(self).glyphs(),
            final(self).image().img_width() == old(self).image().img_width(),
            final(self).image().img_height() == 2 * old(self).image().img_height(),
            final(self).image().pixels() == doubled(
                old(self).image().pixels(),
                old(self).image().img_width() as int,
                old(self).image().img_height() as int,
            ),
            final(self).image().dirty() == Some(
                top_rows(
                    old(self).image().img_width() as int,
                    2 * old(self).image().img_height(),
                ),
            ),
    {
        let width = self.atlas.width();
        let old_height = self.atlas.height();
        let new_height = old_height * 2;
        let ghost w = width as int;
        let ghost oh = old_height as int;
        let full = Bounds::new(0, 0, width, old_height);
        let old_data = match self.atlas.get_rect(full) {
            Ok(d) => d,
            Err(_) => {
                assert(false);
                return;
            },
        };
        let mut new_atlas = Image::new_empty(width, new_height);
        proof {
            assert(w * oh * 4 == oh * (w * 4)) by (nonlinear_arith);
        }
        match new_atlas.blit(0, 0, width, old_height, old_data.as_slice()) {
            Ok(()) => {},
            Err(_) => {
                assert(false);
                return;
            },
        }
        proof {
            let gs = self.glyphs();
            let np = new_atlas.pixels();
            assert(np == doubled(self.atlas.pixels(), w, oh));
            assert forall|i: int| 0 <= i < gs.len() implies region_bytes(np, w, (#[trigger] gs[i]).0)
                == gs[i].1 by {
                let g = gs[i].0;
                lemma_copy_rows_preserves(
                    self.atlas.pixels(),
                    Seq::new((w * (2 * oh) * 4) as nat, |i: int| 0u8),
                    w,
                    oh,
                    g,
                );
            }
        }
        self.atlas = new_atlas;
    }

    /// Packs a glyph of `width` by `height` texels with the given coverage bitmap into the
    /// atlas: on the current row if it fits, else at the start of the next row, doubling the
    /// atlas height as needed. When the atlas would grow past `MAX_ATLAS_SIZE`, it is
    /// cleared instead and the glyph is not packed.
    pub fn place_glyph(&mut self, width: u32, height: u32, coverage: &[u8]) -> (r: Result<GlyphSlot, Error>)
        requires
            old(self).wf(),
            packing_fits(old(self).pos(), width as int, height as int),
            coverage@.len() * 4 <= usize::MAX,
        ensures
            final(self).wf(),
            placement(*old(self), *final(self), width, height, coverage@, r),
    {
        if width == 0 || height == 0 {
            return Ok(GlyphSlot::Empty);
        }
        let ghost p0 = self.position;
        let ghost h0 = self.atlas.img_height() as int;
        let ghost pixels0 = self.atlas.pixels();
        let ghost dirty0 = self.atlas.dirty();
        let ghost gs = self.glyphs();
        if self.position.current_x + width + PADDING > self.atlas.width() {
            let ny = self.position.current_y + self.position.row_height + PADDING;
            self.position = FontPosition { current_x: 0, current_y: ny, row_height: 0 };
            proof {
                assert forall|i: int| 0 <= i < gs.len() implies Self::behind(
                    (#[trigger] gs[i]).0,
                    self.position,
                ) by {
                    assert(Self::behind(gs[i].0, p0));
                }
            }
        }
        let ghost p1 = self.position;
        let ghost target = p1.current_y + height + PADDING;
        assert(p1 == wrapped(p0, ATLAS_SIZE as int, width as int));
        while self.position.current_y + height + PADDING > self.atlas.height()
            invariant
                self.wf(),
                self.pos() == p1,
                self.glyphs() == gs,
                p1 == wrapped(p0, ATLAS_SIZE as int, width as int),
                p0 == old(self).pos(),
                h0 == old(self).image().img_height(),
                width > 0,
                height > 0,
                target == p1.current_y + height + PADDING,
                target <= u32::MAX,
                self.image().img_height() >= h0,
                grown_height(self.image().img_height() as int, target) == grown_height(h0, target),
                grown_pixels(self.image().pixels(), ATLAS_SIZE as int, self.image().img_height() as int, target)
                    == grown_pixels(pixels0, ATLAS_SIZE as int, h0, target),
                self.image().img_height() > h0 ==> self.image().dirty() == Some(
                    top_rows(ATLAS_SIZE as int, self.image().img_height() as int),
                ),
                self.image().img_height() == h0 ==> self.image().dirty() == dirty0
                    && self.image().pixels() == pixels0,
            decreases 2 * MAX_ATLAS_SIZE - self.image().img_height(),
        {
            if self.atlas.height() >= MAX_ATLAS_SIZE {
                self.atlas = Image::new_empty(ATLAS_SIZE, ATLAS_SIZE);
                self.position = FontPosition { current_x: 0, current_y: 0, row_height: 0 };
                self.placed = Ghost(Seq::empty());

                return Ok(GlyphSlot::AtlasReset);
            }
            self.resize_atlas();
        }
        let rgba = coverage_to_rgba(coverage);
        let cx = self.position.current_x;
        let cy = self.position.current_y;
        let ghost grown = self.atlas.pixels();
        let ghost h1 = self.atlas.img_height() as int;
        match self.atlas.blit(cx, cy, width, height, rgba.as_slice()) {
            Ok(()) => {},
            Err(e) => {
                return Err(e);
            },
        }
        let ghost region = Bounds { x: cx, y: cy, width, height };
        proof {
            let data = rgba_of(coverage@).take(width * height * 4);
            let np = self.atlas.pixels();
            assert(grown.len() >= ATLAS_SIZE * h1 * 4);
            assert(region.bottom() * ATLAS_SIZE * 4 <= grown.len()) by (nonlinear_arith)
                requires region.bottom() <= h1, grown.len() >= ATLAS_SIZE * h1 * 4;
            lemma_read_after_blit(grown, ATLAS_SIZE as int, region, rgba_of(coverage@));
            assert forall|i: int| 0 <= i < gs.len() implies region_bytes(np, ATLAS_SIZE as int, (#[trigger] gs[i]).0)
                == gs[i].1 && disjoint(gs[i].0, region) by {
                let g = gs[i].0;
                assert(Self::behind(g, p1));
                assert(g.bottom() * ATLAS_SIZE * 4 <= grown.len()) by (nonlinear_arith)
                    requires g.bottom() <= h1, grown.len() >= ATLAS_SIZE * h1 * 4;
                lemma_blit_preserves_disjoint(grown, ATLAS_SIZE as int, region, rgba_of(coverage@), g);
            }
            self.placed@ = gs.push((region, data));
        }
        let new_row = if self.position.row_height >= height { self.position.row_height } else { height };
        self.position = FontPosition { current_x: cx + width + PADDING, current_y: cy, row_height: new_row };
        proof {
            let ngs = self.glyphs();
            assert forall|i: int| 0 <= i < ngs.len() implies Self::behind((#[trigger] ngs[i]).0, self.position) by {
                if i < gs.len() {
                    assert(ngs[i] == gs[i]);
                    assert(Self::behind(gs[i].0, p1));
                }
            }
            assert forall|i: int, j: int|
                0 <= i < ngs.len() && 0 <= j < ngs.len() && i != j implies disjoint(
                #[trigger] ngs[i].0,
                #[trigger] ngs[j].0,
            ) by {
                if i < gs.len() && j < gs.len() {
                    assert(ngs[i] == gs[i] && ngs[j] == gs[j]);
                } else if i < gs.len() {
                    assert(ngs[i] == gs[i]);
                    assert(disjoint(gs[i].0, region));
                } else {
                    assert(ngs[j] == gs[j]);
                    assert(disjoint(gs[j].0, region));
                }
            }
        }
        Ok(GlyphSlot::Placed { x: cx, y: cy })
    }
}


/// Every glyph packed into an atlas since it was last cleared still reads back its texels
/// and shares no pixel with any other packed glyph.
pub proof fn lemma_packed_glyphs_intact(a: GlyphAtlas)
    requires
        a.wf(),
    ensures
        forall|i: int|
            0 <= i < a.glyphs().len() ==> region_bytes(
                a.image().pixels(),
                a.image().img_width() as int,
                (#[trigger] a.glyphs()[i]).0,
            ) == a.glyphs()[i].1,
        forall|i: int, j: int|
            0 <= i < a.glyphs().len() && 0 <= j < a.glyphs().len() && i != j ==> disjoint(
                #[trigger] a.glyphs()[i].0,
                #[trigger] a.glyphs()[j].0,
            ),
{
}


/// Doubling a positive atlas height to fit `need` rows, with `need` at most
/// `MAX_ATLAS_SIZE`, always succeeds: the height reached fits `need`, never shrinks, and
/// is either unchanged or less than twice `need`.
proof fn lemma_doubling_fits(h: int, need: int)
    requires
        0 < h,
        need <= MAX_ATLAS_SIZE,
    ensures
        grown_height(h, need) matches Some(h1) && h1 >= need && h1 >= h && (h1 == h || h1 < 2
            * need),
    decreases 2 * MAX_ATLAS_SIZE - h,
{
    if need > h {
        lemma_doubling_fits(2 * h, need);
    }
}

/// A glyph whose rows fit within `MAX_ATLAS_SIZE` never clears the atlas: the atlas grows
/// by doubling until the row the glyph goes on fits, the glyphs already packed stay, and
/// the glyph is placed when it is no wider than the atlas and its coverage is complete.
pub proof fn lemma_fitting_glyph_never_resets(
    old: GlyphAtlas,
    new: GlyphAtlas,
    width: u32,
    height: u32,
    coverage: Seq<u8>,
    r: Result<GlyphSlot, Error>,
)
    requires
        old.wf(),
        width > 0,
        height > 0,
        placement(old, new, width, height, coverage, r),
        (if old.pos().current_x + width + PADDING > ATLAS_SIZE {
            old.pos().current_y + old.pos().row_height + PADDING
        } else {
            old.pos().current_y as int
        }) + height + PADDING <= MAX_ATLAS_SIZE,
    ensures
        r != Ok::<GlyphSlot, Error>(GlyphSlot::AtlasReset),
        ({
            let need = (if old.pos().current_x + width + PADDING > ATLAS_SIZE {
                old.pos().current_y + old.pos().row_height + PADDING
            } else {
                old.pos().current_y as int
            }) + height + PADDING;
            let h0 = old.image().img_height();
            let h1 = new.image().img_height();
            &&& h1 >= need
            &&& h1 >= h0
            &&& (h1 == h0 || h1 < 2 * need)
        }),
        new.glyphs().len() >= old.glyphs().len(),
        new.glyphs().subrange(0, old.glyphs().len() as int) == old.glyphs(),
        coverage.len() >= width * height && width <= ATLAS_SIZE ==> r matches Ok(GlyphSlot::Placed { .. }),
{
    let p1 = wrapped(old.pos(), ATLAS_SIZE as int, width as int);
    let target = p1.current_y + height + PADDING;
    lemma_doubling_fits(old.image().img_height() as int, target);
    assert(old.glyphs().push(new.glyphs().last()).subrange(0, old.glyphs().len() as int) =~= old.glyphs());
    assert(old.glyphs().subrange(0, old.glyphs().len() as int) =~= old.glyphs());
}

/// A placed glyph goes at the packing position when it fits on the current row, and
/// otherwise at the start of a fresh row `PADDING` below the tallest glyph of the current
/// row; a fresh row is as tall as its first glyph, and the position moves past the glyph.
pub proof fn lemma_placed_glyph_position(
    old: GlyphAtlas,
    new: GlyphAtlas,
    width: u32,
    height: u32,
    coverage: Seq<u8>,
    x: u32,
    y: u32,
)
    requires
        old.wf(),
        old.pos().current_x + width + PADDING > ATLAS_SIZE ==> old.pos().current_y
            + old.pos().row_height + PADDING <= u32::MAX,
        placement(old, new, width, height, coverage, Ok(GlyphSlot::Placed { x, y })),
    ensures
        old.pos().current_x + width + PADDING > ATLAS_SIZE ==> {
            &&& x == 0
            &&& y == old.pos().current_y + old.pos().row_height + PADDING
            &&& new.pos() == (FontPosition {
                current_x: (width + PADDING) as u32,
                current_y: y,
                row_height: height,
            })
        },
        old.pos().current_x + width + PADDING <= ATLAS_SIZE ==> {
            &&& x == old.pos().current_x
            &&& y == old.pos().current_y
            &&& new.pos() == (FontPosition {
                current_x: (x + width + PADDING) as u32,
                current_y: y,
                row_height: if old.pos().row_height >= height { old.pos().row_height } else { height },
            })
        },
{
}

/// A placed glyph reads back from the atlas, texel by texel, as white with its coverage
/// as alpha.
pub proof fn lemma_placed_glyph_reads_coverage(
    old: GlyphAtlas,
    new: GlyphAtlas,
    width: u32,
    height: u32,
    coverage: Seq<u8>,
    x: u32,
    y: u32,
)
    requires
        old.wf(),
        new.wf(),
        placement(old, new, width, height, coverage, Ok(GlyphSlot::Placed { x, y })),
    ensures
        ({
            let texels = region_bytes(new.image().pixels(), ATLAS_SIZE as int, Bounds { x, y, width, height });
            &&& coverage.len() >= width * height
            &&& texels.len() == width * height * 4
            &&& forall|i: int|
                #![trigger coverage[i]]
                0 <= i < width * height ==> {
                    &&& texels[4 * i] == 255u8
                    &&& texels[4 * i + 1] == 255u8
                    &&& texels[4 * i + 2] == 255u8
                    &&& texels[4 * i + 3] == coverage[i]
                }
        }),
{
    let region = Bounds { x, y, width, height };
    let g = new.glyphs()[new.glyphs().len() - 1];
    assert(g == (region, rgba_of(coverage).take(width * height * 4)));
    let texels = region_bytes(new.image().pixels(), ATLAS_SIZE as int, region);
    assert(texels == rgba_of(coverage).take(width * height * 4));
    assert forall|i: int| #![trigger coverage[i]] 0 <= i < width * height implies {
        &&& texels[4 * i] == 255u8
        &&& texels[4 * i + 1] == 255u8
        &&& texels[4 * i + 2] == 255u8
        &&& texels[4 * i + 3] == coverage[i]
    } by {
        assert((4 * i + 3) / 4 == i);
        assert((4 * i) % 4 == 0 && (4 * i + 1) % 4 == 1 && (4 * i + 2) % 4 == 2 && (4 * i + 3) % 4 == 3);
    }
}

} // verus!
