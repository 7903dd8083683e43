use verdant::event::{Modifiers, MouseButton, PointerSource};
use verdant::intersections::{Intersect, Intersections};
use verdant::shapes::ScalingMode;
use verdant::view::ViewMode;
use verdant::window::{WindowId, WindowIdCounter, WindowProperties};
use verdant::{choose_alpha_mode, choose_surface_format, AlphaModeChoice};

#[test]
fn default_window_properties() {
    let p = WindowProperties::default();
    assert_eq!(p.title, "verdant window");
    assert_eq!((p.width, p.height), (800, 600));
    assert!(!p.resizable && !p.transparent && !p.fullscreen && !p.maximized && !p.always_on_top);
}

#[test]
fn window_properties_builder() {
    let p = WindowProperties::new("hello", 320, 240)
        .resizable(true)
        .transparent(true)
        .fullscreen(true)
        .maximized(true)
        .always_on_top(true)
        .title(String::from("renamed"))
        .size(640, 480);
    assert_eq!(p.title, "renamed");
    assert_eq!((p.width, p.height), (640, 480));
    assert!(p.resizable && p.transparent && p.fullscreen && p.maximized && p.always_on_top);
    let p = p.width(1).height(2).resizable(false);
    assert_eq!((p.width, p.height, p.resizable), (1, 2, false));
}

#[test]
fn window_ids_count_up() {
    let mut c = WindowIdCounter::new();
    assert_eq!(WindowId::new(&mut c), WindowId(0));
    assert_eq!(WindowId::new(&mut c), WindowId(1));
    assert_eq!(WindowId::new(&mut c), WindowId(2));
}

#[test]
fn mouse_buttons_from_numbers() {
    assert_eq!(MouseButton::from(0u8), MouseButton::Left);
    assert_eq!(MouseButton::from(1u8), MouseButton::Right);
    assert_eq!(MouseButton::from(2u8), MouseButton::Middle);
    assert_eq!(MouseButton::from(3u8), MouseButton::Back);
    assert_eq!(MouseButton::from(4u8), MouseButton::Forward);
    assert_eq!(MouseButton::from(9u8), MouseButton::Other(9));
    assert!(MouseButton::Left < MouseButton::Other(0));
}

#[test]
fn plain_types() {
    let m = Modifiers { shift: true, control: false, alt: false, meta: true };
    assert_eq!(m.clone(), m);
    assert_ne!(PointerSource::Touch(1), PointerSource::Touch(2));
    assert_eq!(ScalingMode::default(), ScalingMode::Geometric);
    assert_eq!(ViewMode::default(), ViewMode::Unscaled);
}

#[test]
fn surface_choices() {
    assert_eq!(choose_surface_format(&[true, false, false]), 1);
    assert_eq!(choose_surface_format(&[true, true]), 0);
    assert_eq!(choose_surface_format(&[false]), 0);
    assert_eq!(choose_alpha_mode(true, true), AlphaModeChoice::PreMultiplied);
    assert_eq!(choose_alpha_mode(false, true), AlphaModeChoice::Inherit);
    assert_eq!(choose_alpha_mode(false, false), AlphaModeChoice::Auto);
}

#[test]
fn intersections_hold_at_most_n() {
    let mut i: Intersections<(i32, i32), 2> = Intersections::new();
    assert!(i.is_empty());
    assert!(i.push((1, 2)));
    assert!(i.push((3, 4)));
    assert!(!i.push((5, 6)));
    assert_eq!(i.len(), 2);
    assert_eq!(*i.index(1), (3, 4));
    assert_eq!(i.points(), &[(1, 2), (3, 4)][..]);
    i.clear();
    assert_eq!(i.len(), 0);
}

#[test]
fn intersections_extend_until_full() {
    let mut i: Intersections<u8, 3> = Intersections::default();
    assert!(i.is_empty());
    i.extend(&[1, 2]);
    assert_eq!(i.points(), &[1, 2][..]);
    i.extend(&[3, 4, 5]);
    assert_eq!(i.points(), &[1, 2, 3][..]);
    i.extend(&[]);
    assert_eq!(i.len(), 3);
}

struct Span1 {
    start: i32,
    end: i32,
}

impl Intersect<i32> for Span1 {
    type Points = Intersections<i32, 1>;

    fn spec_contains(&self, other: &i32) -> bool {
        self.contains(other)
    }

    fn spec_meets(&self, other: &i32) -> bool {
        self.intersection_points(other).is_some()
    }

    fn contains(&self, other: &i32) -> bool {
        self.start < *other && *other < self.end
    }

    fn intersection_points(&self, other: &i32) -> Option<Self::Points> {
        if *other == self.start || *other == self.end {
            let mut points = Intersections::new();
            points.push(*other);
            Some(points)
        } else {
            None
        }
    }
}

#[test]
fn intersects_is_inside_or_on_the_outline() {
    let s = Span1 { start: 0, end: 10 };
    assert!(s.intersects(&5));
    assert!(s.intersects(&0));
    assert!(s.intersects(&10));
    assert!(!s.intersects(&11));
}

#[test]
fn window_properties_new_keeps_title_and_size() {
    let p = WindowProperties::new("demo", 640, 480);
    assert_eq!(p.title, "demo");
    assert_eq!((p.width, p.height), (640, 480));
    assert!(!p.resizable && !p.transparent && !p.fullscreen && !p.maximized && !p.always_on_top);
    assert_eq!(p.title("other").title, "other");
}
