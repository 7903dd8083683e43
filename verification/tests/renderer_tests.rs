use verdant::window::{WindowId, WindowProperties};
use verdant::RendererContext;

#[test]
fn windows_queue_then_open() {
    let mut ctx: RendererContext<&'static str, u32> = RendererContext::new();
    assert!(!ctx.is_running());
    let a = ctx.create_window("first", 640, 480);
    let b = ctx.create_window_ext(WindowProperties::new("second", 10, 20));
    assert_eq!((a, b), (WindowId(0), WindowId(1)));
    assert!(ctx.is_running());
    let (id, props) = ctx.pop_queued().unwrap();
    assert_eq!(id, a);
    assert_eq!(props.title, "first");
    assert_eq!((props.width, props.height), (640, 480));
    assert!(!props.resizable);
    ctx.register(id, 1000, "window a");
    assert_eq!(ctx.get_window(a).map(|w| *w), Some("window a"));
    if let Some(w) = ctx.get_window(a) {
        *w = "renamed";
    }
    assert_eq!(ctx.get_window(a).map(|w| *w), Some("renamed"));
    assert_eq!(ctx.get_window(b), None);
    let (id, _) = ctx.pop_queued().unwrap();
    assert_eq!(id, b);
    assert!(ctx.pop_queued().is_none());
    ctx.register(id, 2000, "window b");
    let mut ids = ctx.window_ids();
    ids.sort_by_key(|w| w.0);
    assert_eq!(ids, vec![a, b]);
}

#[test]
fn events_map_to_library_ids() {
    let mut ctx: RendererContext<(), u32> = RendererContext::new();
    let a = ctx.create_window("a", 1, 1);
    ctx.pop_queued();
    ctx.register(a, 77, ());
    assert_eq!(ctx.window_event(77, 5), Some(a));
    assert_eq!(ctx.window_event(78, 6), None);
    assert_eq!(ctx.window_event(77, 7), Some(a));
    assert_eq!(ctx.take_events(), vec![(a, 5), (a, 7)]);
    assert!(ctx.take_events().is_empty());
}

#[test]
fn close_window_reports_existence() {
    let mut ctx: RendererContext<(), ()> = RendererContext::new();
    let a = ctx.create_window("a", 1, 1);
    ctx.pop_queued();
    ctx.register(a, 1, ());
    assert!(ctx.is_running());
    assert!(ctx.close_window(a));
    assert!(!ctx.close_window(a));
    assert!(!ctx.is_running());
}

#[test]
fn real_ids_lead_back_to_library_ids() {
    let mut ctx: RendererContext<(), ()> = RendererContext::new();
    let a = ctx.create_window("a", 1, 1);
    let b = ctx.create_window("b", 1, 1);
    assert_eq!(ctx.window_for(10), None);
    ctx.pop_queued();
    ctx.register(a, 10, ());
    ctx.pop_queued();
    ctx.register(b, 20, ());
    assert_eq!(ctx.window_for(10), Some(a));
    assert_eq!(ctx.window_for(20), Some(b));
    assert_eq!(ctx.window_for(30), None);
    assert!(ctx.take_events().is_empty());
}

#[test]
fn closing_a_queued_window_drops_it() {
    let mut ctx: RendererContext<(), ()> = RendererContext::new();
    let a = ctx.create_window("a", 1, 1);
    let b = ctx.create_window("b", 1, 1);
    assert!(ctx.close_window(a));
    assert!(!ctx.close_window(a));
    assert!(ctx.is_running());
    let (id, _) = ctx.pop_queued().unwrap();
    assert_eq!(id, b);
    assert!(ctx.pop_queued().is_none());
    assert!(ctx.close_window(b) == false);
    assert!(!ctx.is_running());
}
