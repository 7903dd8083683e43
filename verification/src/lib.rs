//! Verified core of the verdant rendering library: pixel buffers, glyph atlas packing,
//! draw batching, the text layout cache and window configuration.

pub mod canvas;
pub mod errors;
pub mod event;
pub mod font;
pub mod image;
pub mod intersections;
pub mod shapes;
pub mod text;
pub mod types;
pub mod view;
pub mod window;

use std::collections::{HashMap, VecDeque};
use vstd::prelude::*;
use vstd::std_specs::iter::IteratorSpec;

use crate::window::{WindowId, WindowIdCounter, WindowProperties};

verus! {

/// How a window surface blends with what is behind it.
#[derive(Debug, Clone, Copy, PartialEq, Eq, Structural)]
pub enum AlphaModeChoice {
    PreMultiplied,
    Inherit,
    Auto,
}

/// The surface format to render to, given for each supported format whether it is sRGB:
/// the first one that is not, else the first one.
pub fn choose_surface_format(is_srgb: &[bool]) -> (i: usize)
    requires
        is_srgb@.len() > 0,
    ensures
        i < is_srgb@.len(),
        (exists|j: int| 0 <= j < is_srgb@.len() && !is_srgb@[j]) ==> {
            &&& !is_srgb@[i as int]
            &&& forall|j: int| 0 <= j < i ==> is_srgb@[j]
        },
        (forall|j: int| 0 <= j < is_srgb@.len() ==> is_srgb@[j]) ==> i == 0,
{
    let n = is_srgb.len();
    let mut k: usize = 0;
    while k < n
        invariant
            k <= n,
            n == is_srgb@.len(),
            forall|j: int| 0 <= j < k ==> is_srgb@[j],
        decreases n - k,
    {
        if !is_srgb[k] {
            return k;
        }
        k = k + 1;
    }
    0
}

/// The blending mode of a window surface: premultiplied alpha if supported, else inherited
/// if supported, else whatever the platform picks.
pub fn choose_alpha_mode(premultiplied_supported: bool, inherit_supported: bool) -> (m: AlphaModeChoice)
    ensures
        premultiplied_supported ==> m == AlphaModeChoice::PreMultiplied,
        !premultiplied_supported && inherit_supported ==> m == AlphaModeChoice::Inherit,
        !premultiplied_supported && !inherit_supported ==> m == AlphaModeChoice::Auto,
{
    if premultiplied_supported {
        AlphaModeChoice::PreMultiplied
    } else if inherit_supported {
        AlphaModeChoice::Inherit
    } else {
        AlphaModeChoice::Auto
    }
}


broadcast use vstd::std_specs::hash::group_hash_axioms;

/// Looks up the window stored under `key` for changing it.
///
/// Calls `std::collections::HashMap::get_mut`, whose documentation says it returns a mutable
/// reference to the value under the key, or `None` when the key is absent. The contract
/// claims exactly that: the reference starts out as the stored value, whatever is written
/// through it is what the map holds afterwards, and the map is otherwise unchanged.
#[verifier::external_body]
fn window_entry<W>(map: &mut HashMap<usize, W>, key: usize) -> (r: Option<&mut W>)
    ensures
        match r {
            Some(w) => {
                &&& old(map)@.contains_key(key)
                &&& *w == old(map)@[key]
                &&& final(map)@ == old(map)@.insert(key, *final(w))
            },
            None => !old(map)@.contains_key(key) && final(map)@ == old(map)@,
        },
{
    map.get_mut(&key)
}

/// The queue `q` without the windows that have the id `id`, in the same order.
pub open spec fn without_window(q: Seq<(WindowId, WindowProperties)>, id: WindowId) -> Seq<(WindowId, WindowProperties)>
    decreases q.len(),
{
    if q.len() == 0 {
        q
    } else if q.last().0 == id {
        without_window(q.drop_last(), id)
    } else {
        without_window(q.drop_last(), id).push(q.last())
    }
}

/// Closing window `id` keeps the creation queue filtered to the windows with another id:
/// every other queued window stays, in the same order, and only those with `id` leave.
pub proof fn lemma_close_keeps_other_queued(q: Seq<(WindowId, WindowProperties)>, id: WindowId)
    ensures
        without_window(q, id) == q.filter(|e: (WindowId, WindowProperties)| e.0 != id),
        forall|e: (WindowId, WindowProperties)|
            #[trigger] without_window(q, id).contains(e) <==> (q.contains(e) && e.0 != id),
    decreases q.len(),
{
    reveal(Seq::filter);
    let pred = |e: (WindowId, WindowProperties)| e.0 != id;
    if q.len() > 0 {
        let rest = q.drop_last();
        lemma_close_keeps_other_queued(rest, id);
        assert(q.filter(pred) == if pred(q.last()) {
            rest.filter(pred).push(q.last())
        } else {
            rest.filter(pred)
        });
        assert forall|e: (WindowId, WindowProperties)|
            #[trigger] without_window(q, id).contains(e) <==> (q.contains(e) && e.0 != id) by {
            let w = without_window(rest, id);
            if q.contains(e) && e.0 != id {
                let k = choose|k: int| 0 <= k < q.len() && q[k] == e;
                if k < rest.len() {
                    assert(rest[k] == e);
                    assert(rest.contains(e));
                    assert(w.contains(e));
                    let m = choose|m: int| 0 <= m < w.len() && w[m] == e;
                    if q.last().0 != id {
                        assert(w.push(q.last())[m] == e);
                    }
                } else {
                    assert(q.last() == e);
                    assert(w.push(q.last())[w.len() as int] == e);
                }
            }
            if without_window(q, id).contains(e) {
                let m = choose|m: int| 0 <= m < without_window(q, id).len() && without_window(q, id)[m] == e;
                if q.last().0 != id && m == w.len() {
                    assert(e == q.last());
                    assert(q[q.len() - 1] == e);
                } else {
                    if q.last().0 != id {
                        assert(w[m] == e);
                    }
                    assert(w.contains(e));
                    let k = choose|k: int| 0 <= k < rest.len() && rest[k] == e;
                    assert(q[k] == e);
                }
            }
        }
    }
}

/// The windows of a renderer, the windows waiting to be created, the ids the windowing
/// system gave them, and the events received for them.
pub struct RendererContext<W, E> {
    windows: HashMap<usize, W>,
    virtual_to_real: HashMap<usize, u64>,
    real_to_virtual: HashMap<u64, usize>,
    window_queue: VecDeque<(WindowId, WindowProperties)>,
    events: Vec<(WindowId, E)>,
    ids: WindowIdCounter,
}

impl<W, E> RendererContext<W, E> {
    /// The open windows, by id.
    pub closed spec fn open_windows(&self) -> Map<usize, W> {
        self.windows@
    }

    /// The windows waiting to be created, oldest first.
    pub closed spec fn queued(&self) -> Seq<(WindowId, WindowProperties)> {
        self.window_queue@
    }

    /// The ids the windowing system gave windows, by the ids of this library.
    pub closed spec fn real_ids(&self) -> Map<usize, u64> {
        self.virtual_to_real@
    }

    /// The ids of this library, by the ids the windowing system gave windows.
    pub closed spec fn virtual_ids(&self) -> Map<u64, usize> {
        self.real_to_virtual@
    }

    /// The events received since they were last taken.
    pub closed spec fn pending_events(&self) -> Seq<(WindowId, E)> {
        self.events@
    }

    /// The id the next window gets.
    pub closed spec fn next_id(&self) -> usize {
        self.ids.peek()
    }

    /// Every open or queued window has an id below the next one.
    pub open spec fn ids_issued_below(&self) -> bool {
        &&& forall|k: usize| #[trigger] self.open_windows().contains_key(k) ==> k < self.next_id()
        &&& forall|i: int| 0 <= i < self.queued().len() ==> (#[trigger] self.queued()[i]).0.0 < self.next_id()
    }

    /// No windows, nothing queued, no events.
    pub fn new() -> (c: Self)
        ensures
            c.open_windows() == Map::<usize, W>::empty(),
            c.queued() == Seq::<(WindowId, WindowProperties)>::empty(),
            c.real_ids() == Map::<usize, u64>::empty(),
            c.virtual_ids() == Map::<u64, usize>::empty(),
            c.pending_events() == Seq::<(WindowId, E)>::empty(),
            c.next_id() == 0,
    {
        RendererContext {
            windows: HashMap::new(),
            virtual_to_real: HashMap::new(),
            real_to_virtual: HashMap::new(),
            window_queue: VecDeque::new(),
            events: Vec::new(),
            ids: WindowIdCounter::new(),
        }
    }

    /// Queues a window with the given properties for creation and returns its id.
    pub fn create_window_ext(&mut self, props: WindowProperties) -> (id: WindowId)
        ensures
            id == WindowId(old(self).next_id()),
            final(self).next_id() == if old(self).next_id() == usize::MAX {
                0
            } else {
                (old(self).next_id() + 1) as usize
            },
            final(self).queued() == old(self).queued().push((id, props)),
            final(self).open_windows() == old(self).open_windows(),
            final(self).real_ids() == old(self).real_ids(),
            final(self).virtual_ids() == old(self).virtual_ids(),
            final(self).pending_events() == old(self).pending_events(),
    {
        let id = WindowId::new(&mut self.ids);
        self.window_queue.push_back((id, props));
        id
    }

    /// Queues a window with the given title and size, and otherwise default properties,
    /// for creation and returns its id.
    pub fn create_window<T: std::fmt::Display>(&mut self, title: T, width: u32, height: u32) -> (id: WindowId)
        ensures
            id == WindowId(old(self).next_id()),
            final(self).queued().len() == old(self).queued().len() + 1,
            final(self).queued().drop_last() == old(self).queued(),
            ({
                let p = final(self).queued().last();
                &&& p.0 == id
                &&& vstd::string::to_string_from_display_ensures::<T>(&title, p.1.title)
                &&& p.1.width == width
                &&& p.1.height == height
                &&& !p.1.resizable
                &&& !p.1.transparent
                &&& !p.1.fullscreen
                &&& !p.1.maximized
                &&& !p.1.always_on_top
            }),
            final(self).open_windows() == old(self).open_windows(),
            final(self).pending_events() == old(self).pending_events(),
    {
        let props = WindowProperties { width, height, title: title.to_string(), ..WindowProperties::default() };
        let id = self.create_window_ext(props);
        assert(self.queued().drop_last() =~= old(self).queued());
        id
    }

    /// Takes the oldest window waiting to be created.
    pub fn pop_queued(&mut self) -> (q: Option<(WindowId, WindowProperties)>)
        ensures
            old(self).queued().len() == 0 ==> q is None && final(self).queued() == old(self).queued(),
            old(self).queued().len() > 0 ==> q == Some(old(self).queued()[0])
                && final(self).queued() == old(self).queued().drop_first(),
            final(self).open_windows() == old(self).open_windows(),
            final(self).real_ids() == old(self).real_ids(),
            final(self).virtual_ids() == old(self).virtual_ids(),
            final(self).pending_events() == old(self).pending_events(),
            final(self).next_id() == old(self).next_id(),
    {
        self.window_queue.pop_front()
    }

    /// Records a window the windowing system created under `real_id` for the id `id`.
    pub fn register(&mut self, id: WindowId, real_id: u64, window: W)
        ensures
            final(self).open_windows() == old(self).open_windows().insert(id.0, window),
            final(self).real_ids() == old(self).real_ids().insert(id.0, real_id),
            final(self).virtual_ids() == old(self).virtual_ids().insert(real_id, id.0),
            final(self).queued() == old(self).queued(),
            final(self).pending_events() == old(self).pending_events(),
            final(self).next_id() == old(self).next_id(),
    {
        self.virtual_to_real.insert(id.0, real_id);
        self.real_to_virtual.insert(real_id, id.0);
        self.windows.insert(id.0, window);
    }

    /// Closes the window with the given id, whether it is open or still waiting to be created:
    /// an open window is removed, and a queued one is dropped from the queue so that it is
    /// never created. Returns `true` if a window with that id existed.
    pub fn close_window(&mut self, id: WindowId) -> (existed: bool)
        ensures
            existed == (old(self).open_windows().contains_key(id.0) || exists|i: int|
                0 <= i < old(self).queued().len() && (#[trigger] old(self).queued()[i]).0 == id),
            final(self).open_windows() == old(self).open_windows().remove(id.0),
            final(self).queued() == without_window(old(self).queued(), id),
            final(self).queued() == old(self).queued().filter(
                |e: (WindowId, WindowProperties)| e.0 != id,
            ),
            final(self).real_ids() == old(self).real_ids(),
            final(self).virtual_ids() == old(self).virtual_ids(),
            final(self).pending_events() == old(self).pending_events(),
            final(self).next_id() == old(self).next_id(),
    {
        let was_open = match self.windows.remove(&id.0) {
            Some(_) => true,
            None => false,
        };
        let ghost q0 = self.window_queue@;
        let n = self.window_queue.len();
        let mut was_queued = false;
        let mut k: usize = 0;
        while k < n
            invariant
                k <= n,
                n == q0.len(),
                q0 == old(self).queued(),
                self.window_queue@ == q0.skip(k as int) + without_window(q0.take(k as int), id),
                was_queued == exists|i: int| 0 <= i < k && (#[trigger] q0[i]).0 == id,
                self.windows@ == old(self).open_windows().remove(id.0),
                self.virtual_to_real@ == old(self).real_ids(),
                self.real_to_virtual@ == old(self).virtual_ids(),
                self.events@ == old(self).pending_events(),
                self.ids.peek() == old(self).next_id(),
            decreases n - k,
        {
            let ghost before = self.window_queue@;
            assert(q0.take(k + 1).drop_last() =~= q0.take(k as int));
            assert(q0.take(k + 1).last() == q0[k as int]);
            match self.window_queue.pop_front() {
                Some(entry) => {
                    assert(entry == q0[k as int]);
                    if entry.0 == id {
                        was_queued = true;
                        assert(self.window_queue@ =~= q0.skip(k + 1) + without_window(q0.take(k + 1), id));
                    } else {
                        self.window_queue.push_back(entry);
                        assert(self.window_queue@ =~= q0.skip(k + 1) + without_window(q0.take(k + 1), id));
                    }
                },
                None => {
                    assert(false);
                },
            }
            k = k + 1;
        }
        assert(q0.skip(n as int) =~= Seq::<(WindowId, WindowProperties)>::empty());
        assert(q0.take(n as int) =~= q0);
        assert(self.window_queue@ =~= without_window(q0, id));
        proof {
            lemma_close_keeps_other_queued(q0, id);
        }
        was_open || was_queued
    }

    /// The window with the given id, if it is open, for changing it.
    pub fn get_window(&mut self, id: WindowId) -> (r: Option<&mut W>)
        ensures
            match r {
                Some(w) => {
                    &&& old(self).open_windows().contains_key(id.0)
                    &&& *w == old(self).open_windows()[id.0]
                    &&& final(self).open_windows() == old(self).open_windows().insert(id.0, *final(w))
                },
                None => !old(self).open_windows().contains_key(id.0) && final(self).open_windows()
                    == old(self).open_windows(),
            },
            final(self).real_ids() == old(self).real_ids(),
            final(self).virtual_ids() == old(self).virtual_ids(),
            final(self).queued() == old(self).queued(),
            final(self).pending_events() == old(self).pending_events(),
            final(self).next_id() == old(self).next_id(),
    {
        window_entry(&mut self.windows, id.0)
    }

    /// The id of this library for the window the windowing system calls `real_id`, if that
    /// window was created here.
    pub fn window_for(&self, real_id: u64) -> (id: Option<WindowId>)
        ensures
            id == if self.virtual_ids().contains_key(real_id) {
                Some(WindowId(self.virtual_ids()[real_id]))
            } else {
                None::<WindowId>
            },
    {
        match self.real_to_virtual.get(&real_id) {
            Some(v) => Some(WindowId(*v)),
            None => None,
        }
    }

    /// Records an event the windowing system sent to the window it calls `real_id`, when that
    /// window was created here; returns the id of this library it goes with.
    pub fn window_event(&mut self, real_id: u64, event: E) -> (id: Option<WindowId>)
        ensures
            old(self).virtual_ids().contains_key(real_id) ==> {
                let v = WindowId(old(self).virtual_ids()[real_id]);
                &&& id == Some(v)
                &&& final(self).pending_events() == old(self).pending_events().push((v, event))
            },
            !old(self).virtual_ids().contains_key(real_id) ==> id is None && final(self).pending_events()
                == old(self).pending_events(),
            final(self).open_windows() == old(self).open_windows(),
            final(self).real_ids() == old(self).real_ids(),
            final(self).virtual_ids() == old(self).virtual_ids(),
            final(self).queued() == old(self).queued(),
            final(self).next_id() == old(self).next_id(),
    {
        match self.real_to_virtual.get(&real_id) {
            Some(v) => {
                let id = WindowId(*v);
                self.events.push((id, event));
                Some(id)
            },
            None => None,
        }
    }

    /// Takes the events received since they were last taken, oldest first.
    pub fn take_events(&mut self) -> (events: Vec<(WindowId, E)>)
        ensures
            events@ == old(self).pending_events(),
            final(self).pending_events() == Seq::<(WindowId, E)>::empty(),
            final(self).open_windows() == old(self).open_windows(),
            final(self).real_ids() == old(self).real_ids(),
            final(self).virtual_ids() == old(self).virtual_ids(),
            final(self).queued() == old(self).queued(),
            final(self).next_id() == old(self).next_id(),
    {
        let mut events = Vec::new();
        std::mem::swap(&mut events, &mut self.events);
        events
    }

    /// The ids of the open windows, each once, in no particular order.
    pub fn window_ids(&self) -> (ids: Vec<WindowId>)
        ensures
            forall|i: int| 0 <= i < ids@.len() ==> self.open_windows().contains_key(#[trigger] ids@[i].0),
            forall|k: usize| #[trigger] self.open_windows().contains_key(k) ==> ids@.contains(WindowId(k)),
            ids@.no_duplicates(),
            ids@.len() == self.open_windows().len(),
    {
        let mut ids: Vec<WindowId> = Vec::new();
        let ghost keys = vstd::std_specs::hash::spec_keys_iter(&self.windows).remaining();
        for k in it: self.windows.keys()
            invariant
                it.seq() == keys,
                keys == vstd::std_specs::hash::spec_keys_iter(&self.windows).remaining(),
                ids@.len() == it.index(),
                forall|i: int| 0 <= i < it.index() ==> ids@[i] == WindowId(*(#[trigger] keys[i])),
        {
            ids.push(WindowId(*k));
        }
        proof {
            assert forall|i: int| 0 <= i < ids@.len() implies self.open_windows().contains_key(#[trigger] ids@[i].0) by {
                assert(keys.unref()[i] == *keys[i]);
                assert(keys.unref().contains(*keys[i]));
                assert(keys.unref().to_set().contains(*keys[i]));
            }
            assert forall|k: usize| #[trigger] self.open_windows().contains_key(k) implies ids@.contains(WindowId(k)) by {
                assert(keys.unref().to_set().contains(k));
                assert(keys.unref().contains(k));
                let i = choose|i: int| 0 <= i < keys.unref().len() && keys.unref()[i] == k;
                assert(*keys[i] == k);
                assert(ids@[i] == WindowId(k));
            }
            assert forall|i: int, j: int| 0 <= i < ids@.len() && 0 <= j < ids@.len() && i != j implies ids@[i]
                != ids@[j] by {
                assert(keys[i] != keys[j]);
            }
        }
        ids
    }

    /// Returns `true` if any windows are open or waiting to be created.
    pub fn is_running(&self) -> (b: bool)
        ensures
            b == (self.open_windows().len() > 0 || self.queued().len() > 0),
    {
        !self.windows.is_empty() || self.window_queue.len() > 0
    }
}

/// A window queued for creation gets an id no open or queued window has, as long as ids
/// have not wrapped around.
pub proof fn lemma_created_id_is_fresh<W, E>(
    before: RendererContext<W, E>,
    after: RendererContext<W, E>,
    id: WindowId,
    props: WindowProperties,
)
    requires
        before.ids_issued_below(),
        before.next_id() < usize::MAX,
        id == WindowId(before.next_id()),
        after.next_id() == before.next_id() + 1,
        after.queued() == before.queued().push((id, props)),
        after.open_windows() == before.open_windows(),
    ensures
        !before.open_windows().contains_key(id.0),
        forall|i: int| 0 <= i < before.queued().len() ==> (#[trigger] before.queued()[i]).0 != id,
        after.ids_issued_below(),
{
    assert forall|i: int| 0 <= i < after.queued().len() implies (#[trigger] after.queued()[i]).0.0 < after.next_id() by {
        if i < before.queued().len() {
            assert(after.queued()[i] == before.queued()[i]);
        }
    }
}

} // verus!
