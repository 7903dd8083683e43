use vstd::prelude::*;

verus! {

/// `String::from(&str)`, which std documents as converting a `&str` into a `String`: the
/// new string holds the same characters.
pub assume_specification<'a>[ <String as From<&'a str>>::from ](s: &str) -> (r: String)
    ensures
        r@ == s@,
;

/// Identifies a window created by a renderer.
#[derive(Debug, Clone, Copy, PartialEq, Eq, Structural, Hash)]
pub struct WindowId(pub usize);

/// Hands out window ids in order, wrapping around after the largest one.
#[derive(Debug)]
pub struct WindowIdCounter {
    next: usize,
}

impl WindowIdCounter {
    /// The id the counter hands out next.
    pub closed spec fn peek(&self) -> usize {
        self.next
    }

    /// A counter that starts at zero.
    pub fn new() -> (c: Self)
        ensures
            c.peek() == 0,
    {
        WindowIdCounter { next: 0 }
    }
}

impl WindowId {
    /// Takes the next window id from `counter`.
    pub fn new(counter: &mut WindowIdCounter) -> (id: Self)
        ensures
            id == WindowId(old(counter).peek()),
            final(counter).peek() == if old(counter).peek() == usize::MAX {
                0
            } else {
                (old(counter).peek() + 1) as usize
            },
    {
        let id = counter.next;
        counter.next = counter.next.wrapping_add(1);
        WindowId(id)
    }
}

/// The properties a window is created with.
#[derive(Debug, Clone)]
pub struct WindowProperties {
    /// The title of the window.
    pub title: String,
    /// The width of the window in pixels.
    pub width: u32,
    /// The height of the window in pixels.
    pub height: u32,
    /// Whether the window can be resized by the user.
    pub resizable: bool,
    /// Whether the window background is transparent (on platforms that support it).
    pub transparent: bool,
    /// Whether the window should launch in borderless fullscreen mode.
    pub fullscreen: bool,
    /// Whether the window should launch maximized.
    pub maximized: bool,
    /// Whether the window should always render on top of other windows.
    pub always_on_top: bool,
}

impl Default for WindowProperties {
    fn default() -> (p: Self)
        ensures
            p.title@ == "verdant window"@,
            p.width == 800,
            p.height == 600,
            !p.resizable,
            !p.transparent,
            !p.fullscreen,
            !p.maximized,
            !p.always_on_top,
    {
        WindowProperties {
            title: "verdant window".to_owned(),
            width: 800,
            height: 600,
            resizable: false,
            transparent: false,
            fullscreen: false,
            maximized: false,
            always_on_top: false,
        }
    }
}

impl WindowProperties {
    /// Create a new [`WindowProperties`] with a `title`, `width`, and `height`; every flag is off.
    pub fn new<T: Into<String>>(title: T, width: u32, height: u32) -> (p: Self)
        ensures
            call_ensures(<T as Into<String>>::into, (title,), p.title),
            p.width == width,
            p.height == height,
            !p.resizable,
            !p.transparent,
            !p.fullscreen,
            !p.maximized,
            !p.always_on_top,
    {
        let title: String = title.into();
        WindowProperties {
            title,
            width,
            height,
            resizable: false,
            transparent: false,
            fullscreen: false,
            maximized: false,
            always_on_top: false,
        }
    }

    /// Set the title of the window.
    pub fn title<T: Into<String>>(self, title: T) -> (p: Self)
        ensures
            call_ensures(<T as Into<String>>::into, (title,), p.title),
            p == (WindowProperties { title: p.title, ..self }),
    {
        let title: String = title.into();
        WindowProperties { title, ..self }
    }

    /// Set the width of the window.
    pub fn width(self, width: u32) -> (p: Self)
        ensures
            p == (WindowProperties { width, ..self }),
    {
        WindowProperties { width, ..self }
    }

    /// Set the height of the window.
    pub fn height(self, height: u32) -> (p: Self)
        ensures
            p == (WindowProperties { height, ..self }),
    {
        WindowProperties { height, ..self }
    }

    /// Set the size of the window.
    pub fn size(self, width: u32, height: u32) -> (p: Self)
        ensures
            p == (WindowProperties { width, height, ..self }),
    {
        WindowProperties { width, height, ..self }
    }

    /// Set whether the window is resizable.
    pub fn resizable(self, resizable: bool) -> (p: Self)
        ensures
            p == (WindowProperties { resizable, ..self }),
    {
        WindowProperties { resizable, ..self }
    }

    /// Set whether the window background is transparent (on platforms that support it).
    pub fn transparent(self, transparent: bool) -> (p: Self)
        ensures
            p == (WindowProperties { transparent, ..self }),
    {
        WindowProperties { transparent, ..self }
    }

    /// Set whether the window should launch in borderless fullscreen mode.
    pub fn fullscreen(self, fullscreen: bool) -> (p: Self)
        ensures
            p == (WindowProperties { fullscreen, ..self }),
    {
        WindowProperties { fullscreen, ..self }
    }

    /// Set whether the window should launch maximized.
    pub fn maximized(self, maximized: bool) -> (p: Self)
        ensures
            p == (WindowProperties { maximized, ..self }),
    {
        WindowProperties { maximized, ..self }
    }

    /// Set whether the window should always render on top of other windows.
    pub fn always_on_top(self, always_on_top: bool) -> (p: Self)
        ensures
            p == (WindowProperties { always_on_top, ..self }),
    {
        WindowProperties { always_on_top, ..self }
    }
}

} // verus!
