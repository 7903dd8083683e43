use vstd::prelude::*;
use std::collections::HashSet;
use std::ops::Range;

verus! {

broadcast use vstd::std_specs::hash::group_hash_axioms;

/// A run of vertices drawn with one texture, or one composited canvas.
#[derive(Debug)]
pub struct DrawBatch {
    /// The key of the image the vertices sample, if any.
    pub texture: Option<u64>,
    /// The id of the canvas the vertices composite, if any.
    pub canvas: Option<u64>,
    /// The vertices of the batch.
    pub range: Range<u32>,
}

impl Clone for DrawBatch {
    fn clone(&self) -> (c: Self)
        ensures
            c == *self,
    {
        DrawBatch {
            texture: self.texture,
            canvas: self.canvas,
            range: Range { start: self.range.start, end: self.range.end },
        }
    }
}

/// Where the next batch starts: the end of the last batch, or zero.
pub open spec fn next_start(batches: Seq<DrawBatch>) -> u32 {
    if batches.len() > 0 {
        batches.last().range.end
    } else {
        0
    }
}

/// The batches after closing the current run of `len` vertices drawn with `texture`:
/// the last batch is extended when it has the same texture, else a batch is added for
/// the vertices drawn since it, if there are any.
pub open spec fn closed_batches(batches: Seq<DrawBatch>, texture: Option<u64>, len: u32) -> Seq<DrawBatch> {
    let start = next_start(batches);
    if batches.len() > 0 && batches.last().texture == texture {
        batches.update(
            batches.len() - 1,
            DrawBatch {
                texture: batches.last().texture,
                canvas: batches.last().canvas,
                range: Range { start: batches.last().range.start, end: len },
            },
        )
    } else if len > start {
        batches.push(DrawBatch { texture, canvas: None, range: Range { start, end: len } })
    } else {
        batches
    }
}

/// The first batch starts at vertex zero, every other batch starts where the previous one
/// ends, and no batch ends before it starts.
pub open spec fn contiguous(batches: Seq<DrawBatch>) -> bool {
    &&& batches.len() > 0 ==> batches[0].range.start == 0
    &&& forall|i: int| 0 <= i < batches.len() ==> (#[trigger] batches[i]).range.start <= batches[i].range.end
    &&& forall|i: int| 0 < i < batches.len() ==> (#[trigger] batches[i]).range.start == batches[i - 1].range.end
}

/// The draw batches of a canvas frame, and the texture of the vertices being drawn now.
#[derive(Debug)]
pub struct BatchList {
    batches: Vec<DrawBatch>,
    current_texture: Option<u64>,
}

impl BatchList {
    /// The batches closed so far.
    pub closed spec fn batches(&self) -> Seq<DrawBatch> {
        self.batches@
    }

    /// The texture of the vertices being drawn now.
    pub closed spec fn texture(&self) -> Option<u64> {
        self.current_texture
    }

    /// No batches, drawing untextured.
    pub fn new() -> (b: Self)
        ensures
            b.batches() == Seq::<DrawBatch>::empty(),
            b.texture() is None,
    {
        BatchList { batches: Vec::new(), current_texture: None }
    }

    /// The batches closed so far.
    pub fn batch_slice(&self) -> (s: &[DrawBatch])
        ensures
            s@ == self.batches(),
    {
        self.batches.as_slice()
    }

    /// The texture of the vertices being drawn now.
    pub fn current_texture(&self) -> (t: Option<u64>)
        ensures
            t == self.texture(),
    {
        self.current_texture
    }

    /// Closes the run of vertices drawn with the current texture, given that `len` vertices
    /// have been queued in all.
    pub fn update_batch(&mut self, len: u32)
        ensures
            final(self).texture() == old(self).texture(),
            final(self).batches() == closed_batches(old(self).batches(), old(self).texture(), len),
    {
        let start = if self.batches.len() > 0 {
            self.batches[self.batches.len() - 1].range.end
        } else {
            0
        };
        let n = self.batches.len();
        if n > 0 && self.batches[n - 1].texture == self.current_texture {
            let updated = DrawBatch {
                texture: self.batches[n - 1].texture,
                canvas: self.batches[n - 1].canvas,
                range: Range { start: self.batches[n - 1].range.start, end: len },
            };
            self.batches.set(n - 1, updated);
            assert(self.batches@ =~= closed_batches(old(self).batches(), old(self).texture(), len));
            return;
        }
        if len > start {
            let batch = DrawBatch { texture: self.current_texture, canvas: None, range: Range { start, end: len } };
            self.batches.push(batch);
        }
    }

    /// Switches the texture of the vertices drawn next, closing the current run first when
    /// the texture changes.
    pub fn update_texture(&mut self, texture: Option<u64>, len: u32)
        ensures
            final(self).texture() == texture,
            final(self).batches() == if old(self).texture() != texture {
                closed_batches(old(self).batches(), old(self).texture(), len)
            } else {
                old(self).batches()
            },
    {
        if self.current_texture != texture {
            self.update_batch(len);
            self.current_texture = texture;
        }
    }

    /// Closes the current run and adds a batch for the six vertices of a composited canvas
    /// queued at `len`.
    pub fn push_composite(&mut self, canvas: u64, len: u32)
        requires
            len + 6 <= u32::MAX,
        ensures
            final(self).texture() == old(self).texture(),
            final(self).batches() == closed_batches(old(self).batches(), old(self).texture(), len).push(
                DrawBatch { texture: None, canvas: Some(canvas), range: Range { start: len, end: (len + 6) as u32 } },
            ),
    {
        self.update_batch(len);
        self.batches.push(DrawBatch { texture: None, canvas: Some(canvas), range: Range { start: len, end: len + 6 } });
    }

    /// Takes the batches of the frame once `len` vertices have been queued, adding a batch
    /// for the vertices queued after the last batch.
    pub fn take_batches(&mut self, len: u32) -> (taken: Vec<DrawBatch>)
        ensures
            final(self).texture() == old(self).texture(),
            final(self).batches() == Seq::<DrawBatch>::empty(),
            taken@ == if next_start(old(self).batches()) < len {
                old(self).batches().push(
                    DrawBatch {
                        texture: old(self).texture(),
                        canvas: None,
                        range: Range { start: next_start(old(self).batches()), end: len },
                    },
                )
            } else {
                old(self).batches()
            },
    {
        let mut batches = Vec::new();
        std::mem::swap(&mut batches, &mut self.batches);
        let last_group_end = if batches.len() > 0 {
            batches[batches.len() - 1].range.end
        } else {
            0
        };
        if last_group_end < len {
            batches.push(DrawBatch { texture: self.current_texture, canvas: None, range: Range { start: last_group_end, end: len } });
        }
        batches
    }
}

/// Closing a run of vertices keeps the batches contiguous and makes them end at the number
/// of queued vertices, as long as at least as many vertices are queued as the batches cover.
pub proof fn lemma_close_keeps_contiguous(batches: Seq<DrawBatch>, texture: Option<u64>, len: u32)
    requires
        contiguous(batches),
        len >= next_start(batches),
    ensures
        contiguous(closed_batches(batches, texture, len)),
        next_start(closed_batches(batches, texture, len)) == len,
{
    let c = closed_batches(batches, texture, len);
    assert forall|i: int| 0 < i < c.len() implies (#[trigger] c[i]).range.start == c[i - 1].range.end by {
        if i < batches.len() - 1 {
            assert(c[i] == batches[i] && c[i - 1] == batches[i - 1]);
        }
    }
}

/// Closing the same run twice, with no vertex queued in between, adds nothing the second
/// time, whatever the texture: switching textures without drawing makes no new batch.
pub proof fn lemma_close_twice(batches: Seq<DrawBatch>, first: Option<u64>, second: Option<u64>, len: u32)
    requires
        contiguous(batches),
        len >= next_start(batches),
    ensures
        closed_batches(closed_batches(batches, first, len), second, len) == closed_batches(batches, first, len),
{
    lemma_close_keeps_contiguous(batches, first, len);
    let c = closed_batches(batches, first, len);
    let c2 = closed_batches(c, second, len);
    if c.len() > 0 && c.last().texture == second {
        assert(c2 =~= c);
    }
}

/// A composited canvas adds one batch of its six vertices right after the batches, which
/// stay contiguous.
pub proof fn lemma_composite_keeps_contiguous(batches: Seq<DrawBatch>, texture: Option<u64>, canvas: u64, len: u32)
    requires
        contiguous(batches),
        len >= next_start(batches),
        len + 6 <= u32::MAX,
    ensures
        ({
            let c = closed_batches(batches, texture, len).push(
                DrawBatch { texture: None, canvas: Some(canvas), range: Range { start: len, end: (len + 6) as u32 } },
            );
            contiguous(c) && next_start(c) == len + 6
        }),
{
    lemma_close_keeps_contiguous(batches, texture, len);
}

/// The batches taken at the end of a frame cover exactly the queued vertices, in order,
/// without gaps or overlaps.
pub proof fn lemma_taken_batches_cover(batches: Seq<DrawBatch>, texture: Option<u64>, len: u32)
    requires
        contiguous(batches),
        len >= next_start(batches),
    ensures
        ({
            let taken = if next_start(batches) < len {
                batches.push(DrawBatch { texture, canvas: None, range: Range { start: next_start(batches), end: len } })
            } else {
                batches
            };
            contiguous(taken) && next_start(taken) == len
        }),
{
}

/// The canvases composited by `batches`, each once, in the order they are first composited.
pub open spec fn canvases_of(batches: Seq<DrawBatch>) -> Seq<u64>
    decreases batches.len(),
{
    if batches.len() == 0 {
        Seq::empty()
    } else {
        let before = canvases_of(batches.drop_last());
        match batches.last().canvas {
            Some(c) => if before.contains(c) {
                before
            } else {
                before.push(c)
            },
            None => before,
        }
    }
}

/// Whether `x` occurs in `v`.
fn contains_id(v: &Vec<u64>, x: u64) -> (b: bool)
    ensures
        b == v@.contains(x),
{
    let mut k: usize = 0;
    while k < v.len()
        invariant
            k <= v@.len(),
            forall|j: int| 0 <= j < k ==> v@[j] != x,
        decreases v@.len() - k,
    {
        if v[k] == x {
            return true;
        }
        k = k + 1;
    }
    false
}

/// The canvases a frame's batches composite, each once, in the order they are first
/// composited: the canvases to render before the frame itself.
pub fn composited_canvases(batches: &[DrawBatch]) -> (ids: Vec<u64>)
    ensures
        ids@ == canvases_of(batches@),
{
    let mut ids: Vec<u64> = Vec::new();
    let mut k: usize = 0;
    while k < batches.len()
        invariant
            k <= batches@.len(),
            ids@ == canvases_of(batches@.take(k as int)),
        decreases batches@.len() - k,
    {
        assert(batches@.take(k + 1).drop_last() =~= batches@.take(k as int));
        match batches[k].canvas {
            Some(c) => {
                if !contains_id(&ids, c) {
                    ids.push(c);
                }
            },
            None => {},
        }
        k = k + 1;
    }
    assert(batches@.take(batches@.len() as int) =~= batches@);
    ids
}

/// Each canvas a frame composites is listed once, and exactly the canvases some batch
/// composites are listed.
pub proof fn lemma_canvases_listed_once(batches: Seq<DrawBatch>)
    ensures
        canvases_of(batches).no_duplicates(),
        forall|c: u64|
            #[trigger] canvases_of(batches).contains(c) <==> exists|j: int|
                0 <= j < batches.len() && batches[j].canvas == Some(c),
    decreases batches.len(),
{
    if batches.len() > 0 {
        let rest = batches.drop_last();
        lemma_canvases_listed_once(rest);
        assert forall|c: u64|
            #[trigger] canvases_of(batches).contains(c) <==> exists|j: int|
                0 <= j < batches.len() && batches[j].canvas == Some(c) by {
            if canvases_of(rest).contains(c) {
                let j = choose|j: int| 0 <= j < rest.len() && rest[j].canvas == Some(c);
                assert(batches[j] == rest[j]);
            }
            if exists|j: int| 0 <= j < batches.len() && batches[j].canvas == Some(c) {
                let j = choose|j: int| 0 <= j < batches.len() && batches[j].canvas == Some(c);
                if j < rest.len() {
                    assert(rest[j] == batches[j]);
                }
            }
            let before = canvases_of(rest);
            match batches.last().canvas {
                Some(d) => {
                    if !before.contains(d) && c == d {
                        assert(before.push(d)[before.len() as int] == d);
                    }
                    if !before.contains(d) && before.push(d).contains(c) && c != d {
                        let i = choose|i: int| 0 <= i < before.push(d).len() && before.push(d)[i] == c;
                        assert(before[i] == c);
                    }
                    if !before.contains(d) && before.contains(c) {
                        let i = choose|i: int| 0 <= i < before.len() && before[i] == c;
                        assert(before.push(d)[i] == c);
                    }
                },
                None => {},
            }
        }
    }
}

/// What flushing a canvas does with one of the canvases its frame composites, before
/// drawing.
#[derive(Debug, Clone, Copy, PartialEq, Eq, Structural)]
pub enum CompositeStep {
    /// The canvas composites itself: its texture is first copied to a scratch texture,
    /// which the frame then samples.
    CopySelf,
    /// The child canvas with this id is flushed first, then its texture is sampled.
    FlushChild(u64),
    /// The child canvas with this id is already being flushed in this pass; its texture
    /// is sampled as it is.
    UseChild(u64),
}

/// The step for composited canvas `id` while flushing canvas `self_id`, with `flushing`
/// the canvases this pass has already entered.
pub open spec fn composite_step(self_id: u64, id: u64, flushing: Set<u64>) -> CompositeStep {
    if id == self_id {
        CompositeStep::CopySelf
    } else if flushing.contains(id) {
        CompositeStep::UseChild(id)
    } else {
        CompositeStep::FlushChild(id)
    }
}

/// A flush enters each child canvas at most once, never one that the pass has already
/// entered, and never the canvas being flushed itself.
pub proof fn lemma_flush_enters_each_child_once(self_id: u64, batches: Seq<DrawBatch>, flushing: Set<u64>)
    ensures
        forall|i: int, j: int|
            0 <= i < j < canvases_of(batches).len() && #[trigger] composite_step(
                self_id,
                canvases_of(batches)[i],
                flushing,
            ) is FlushChild ==> #[trigger] composite_step(self_id, canvases_of(batches)[j], flushing)
                != composite_step(self_id, canvases_of(batches)[i], flushing),
        forall|i: int|
            0 <= i < canvases_of(batches).len() ==> (#[trigger] composite_step(
                self_id,
                canvases_of(batches)[i],
                flushing,
            ) matches CompositeStep::FlushChild(c) ==> c != self_id && !flushing.contains(c)),
{
    lemma_canvases_listed_once(batches);
}

/// The steps for flushing canvas `self_id` whose frame is `batches`: one per composited
/// canvas, in the order they are first composited. A canvas that this pass has already
/// entered is never flushed again.
pub fn composite_steps(self_id: u64, batches: &[DrawBatch], flushing: &HashSet<u64>) -> (steps: Vec<
    CompositeStep,
>)
    ensures
        steps@.len() == canvases_of(batches@).len(),
        forall|i: int|
            0 <= i < steps@.len() ==> #[trigger] steps@[i] == composite_step(
                self_id,
                canvases_of(batches@)[i],
                flushing@,
            ),
{
    let ids = composited_canvases(batches);
    let mut steps: Vec<CompositeStep> = Vec::new();
    let mut k: usize = 0;
    while k < ids.len()
        invariant
            k <= ids@.len(),
            ids@ == canvases_of(batches@),
            steps@.len() == k,
            forall|i: int|
                0 <= i < k ==> #[trigger] steps@[i] == composite_step(self_id, ids@[i], flushing@),
        decreases ids@.len() - k,
    {
        let id = ids[k];
        let step = if id == self_id {
            CompositeStep::CopySelf
        } else if flushing.contains(&id) {
            CompositeStep::UseChild(id)
        } else {
            CompositeStep::FlushChild(id)
        };
        steps.push(step);
        k = k + 1;
    }
    steps
}

/// The size a vertex buffer of `size` bytes grows to, by doubling, to hold `required` bytes;
/// an empty buffer grows to exactly `required`.
pub open spec fn grown_buffer_size(size: int, required: int) -> int
    decreases (if required > size { required - size } else { 0 }),
{
    if required <= size {
        size
    } else if size <= 0 {
        required
    } else {
        grown_buffer_size(2 * size, required)
    }
}

/// Growing never overflows `u64`.
pub open spec fn growth_fits(size: int, required: int) -> bool
    decreases (if required > size { required - size } else { 0 }),
{
    if required <= size {
        true
    } else if size <= 0 {
        true
    } else {
        2 * size <= u64::MAX && growth_fits(2 * size, required)
    }
}

/// The size a vertex buffer of `size` bytes must grow to so that `required` bytes fit.
pub fn grow_buffer_size(size: u64, required: u64) -> (n: u64)
    requires
        growth_fits(size as int, required as int),
    ensures
        n == grown_buffer_size(size as int, required as int),
        n >= required,
{
    let mut s = size;
    while required > s
        invariant
            growth_fits(s as int, required as int),
            grown_buffer_size(s as int, required as int) == grown_buffer_size(size as int, required as int),
        decreases (if required > s { required - s } else { 0 }),
    {
        if s == 0 {
            s = required;
        } else {
            s = s * 2;
        }
    }
    s
}


/// Opaque black RGBA8 texels for a `width` by `height` texture.
pub fn opaque_black_pixels(width: u32, height: u32) -> (data: Vec<u8>)
    requires
        width * height * 4 <= u32::MAX,
    ensures
        data@ == Seq::new((width * height * 4) as nat, |i: int| if i % 4 == 3 { 255u8 } else { 0u8 }),
{
    let n = (width * height * 4) as usize;
    let mut data: Vec<u8> = Vec::with_capacity(n);
    let mut k: usize = 0;
    while k < n
        invariant
            k <= n,
            data@ == Seq::new(k as nat, |i: int| if i % 4 == 3 { 255u8 } else { 0u8 }),
        decreases n - k,
    {
        if k % 4 == 3 {
            data.push(255u8);
        } else {
            data.push(0u8);
        }
        k = k + 1;
        assert(data@ =~= Seq::new(k as nat, |i: int| if i % 4 == 3 { 255u8 } else { 0u8 }));
    }
    data
}

} // verus!
