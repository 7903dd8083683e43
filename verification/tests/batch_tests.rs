use std::collections::HashSet;
use verdant::canvas::{composite_steps, composited_canvases, grow_buffer_size, BatchList, CompositeStep, DrawBatch};

fn ranges(b: &[DrawBatch]) -> Vec<(Option<u64>, Option<u64>, u32, u32)> {
    b.iter().map(|d| (d.texture, d.canvas, d.range.start, d.range.end)).collect()
}

#[test]
fn texture_switch_closes_runs() {
    let mut b = BatchList::new();
    // 6 untextured vertices, then 6 with texture 1
    b.update_texture(Some(1), 6);
    b.update_texture(None, 12);
    assert_eq!(ranges(b.batch_slice()), vec![(None, None, 0, 6), (Some(1), None, 6, 12)]);
    assert_eq!(b.current_texture(), None);
}

#[test]
fn same_texture_again_makes_no_new_batch() {
    let mut b = BatchList::new();
    b.update_texture(Some(7), 0);
    // draw 6 vertices with texture 7, switch to none, then back to 7 without drawing
    b.update_texture(None, 6);
    b.update_texture(Some(7), 6);
    // draw 6 more with texture 7
    b.update_texture(None, 12);
    assert_eq!(ranges(b.batch_slice()), vec![(Some(7), None, 0, 12)]);
}

#[test]
fn composite_adds_its_own_batch() {
    let mut b = BatchList::new();
    b.push_composite(42, 6);
    assert_eq!(ranges(b.batch_slice()), vec![(None, None, 0, 6), (None, Some(42), 6, 12)]);
}

#[test]
fn take_batches_adds_tail() {
    let mut b = BatchList::new();
    b.update_texture(Some(3), 6);
    let taken = b.take_batches(18);
    assert_eq!(ranges(&taken), vec![(None, None, 0, 6), (Some(3), None, 6, 18)]);
    assert!(b.batch_slice().is_empty());
    assert_eq!(b.current_texture(), Some(3));
}

#[test]
fn take_batches_without_new_vertices() {
    let mut b = BatchList::new();
    b.update_texture(Some(3), 6);
    let taken = b.take_batches(6);
    assert_eq!(ranges(&taken), vec![(None, None, 0, 6)]);
}

#[test]
fn buffer_growth() {
    assert_eq!(grow_buffer_size(0, 100), 100);
    assert_eq!(grow_buffer_size(64, 100), 128);
    assert_eq!(grow_buffer_size(64, 300), 512);
    assert_eq!(grow_buffer_size(256, 100), 256);
}

#[test]
fn composited_canvases_are_listed_once_in_order() {
    let mut b = BatchList::new();
    b.push_composite(5, 0);
    b.update_texture(Some(1), 6);
    b.update_texture(None, 12);
    b.push_composite(3, 12);
    b.push_composite(5, 18);
    b.push_composite(9, 24);
    let batches = b.take_batches(30);
    assert_eq!(composited_canvases(&batches), vec![5, 3, 9]);
    assert_eq!(composited_canvases(&[]), Vec::<u64>::new());
}

#[test]
fn composite_steps_flush_each_child_once() {
    let batch = |canvas: Option<u64>, start: u32, end: u32| DrawBatch { texture: None, canvas, range: start..end };
    let batches = vec![
        batch(Some(7), 0, 6),
        batch(None, 6, 12),
        batch(Some(3), 12, 18),
        batch(Some(7), 18, 24),
        batch(Some(9), 24, 30),
        batch(Some(5), 30, 36),
    ];
    let mut flushing = HashSet::new();
    flushing.insert(3u64);
    flushing.insert(5u64);
    let steps = composite_steps(5, &batches, &flushing);
    assert_eq!(
        steps,
        vec![
            CompositeStep::FlushChild(7),
            CompositeStep::UseChild(3),
            CompositeStep::FlushChild(9),
            CompositeStep::CopySelf,
        ]
    );
    assert!(composite_steps(5, &[], &flushing).is_empty());
}
