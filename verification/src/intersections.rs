use vstd::prelude::*;

verus! {

/// Up to `N` intersection points, in the order they were found.
#[derive(Debug, Clone)]
pub struct Intersections<T, const N: usize> {
    points: Vec<T>,
}

impl<T, const N: usize> Intersections<T, N> {
    /// The points found.
    pub closed spec fn view_points(&self) -> Seq<T> {
        self.points@
    }

    /// At most `N` points are held.
    pub open spec fn wf(&self) -> bool {
        self.view_points().len() <= N
    }

    /// No points.
    pub fn new() -> (s: Self)
        ensures
            s.wf(),
            s.view_points() == Seq::<T>::empty(),
    {
        Intersections { points: Vec::new() }
    }

    /// Adds `point` if fewer than `N` points are held; returns whether it was added.
    pub fn push(&mut self, point: T) -> (added: bool)
        requires
            old(self).wf(),
        ensures
            final(self).wf(),
            added == (old(self).view_points().len() < N),
            added ==> final(self).view_points() == old(self).view_points().push(point),
            !added ==> final(self).view_points() == old(self).view_points(),
    {
        if self.points.len() < N {
            self.points.push(point);
            true
        } else {
            false
        }
    }

    /// Adds the points of `points` in order, as long as fewer than `N` points are held;
    /// the points that do not fit are dropped.
    pub fn extend(&mut self, points: &[T])
        where
            T: Copy,
        requires
            old(self).wf(),
        ensures
            final(self).wf(),
            final(self).view_points() == old(self).view_points() + points@.take(
                if old(self).view_points().len() + points@.len() <= N {
                    points@.len() as int
                } else {
                    N - old(self).view_points().len()
                },
            ),
    {
        let ghost start = self.points@;
        let mut k: usize = 0;
        while k < points.len()
            invariant
                k <= points@.len(),
                start == old(self).view_points(),
                start.len() <= N,
                self.points@.len() <= N,
                self.points@ == start + points@.take(
                    if start.len() + k <= N {
                        k as int
                    } else {
                        N - start.len()
                    },
                ),
            decreases points@.len() - k,
        {
            let p = points[k];
            if self.points.len() < N {
                self.points.push(p);
            }
            proof {
                if start.len() + k + 1 <= N {
                    assert(points@.take(k + 1) =~= points@.take(k as int).push(p));
                }
            }
            k = k + 1;
        }
    }

    /// Removes every point.
    pub fn clear(&mut self)
        ensures
            final(self).wf(),
            final(self).view_points() == Seq::<T>::empty(),
    {
        self.points.clear();
    }

    /// The number of points held.
    pub fn len(&self) -> (n: usize)
        ensures
            n == self.view_points().len(),
    {
        self.points.len()
    }

    /// Whether no points are held.
    pub fn is_empty(&self) -> (b: bool)
        ensures
            b == (self.view_points().len() == 0),
    {
        self.points.len() == 0
    }

    /// The point at `index`.
    pub fn index(&self, index: usize) -> (p: &T)
        requires
            index < self.view_points().len(),
        ensures
            *p == self.view_points()[index as int],
    {
        &self.points[index]
    }

    /// The points held, in order.
    pub fn points(&self) -> (s: &[T])
        ensures
            s@ == self.view_points(),
    {
        self.points.as_slice()
    }
}

impl<T, const N: usize> Default for Intersections<T, N> {
    fn default() -> (s: Self)
        ensures
            s.view_points() == Seq::<T>::empty(),
    {
        Intersections::new()
    }
}

/// Intersection tests between two kinds of shape, for shapes to implement.
pub trait Intersect<T> {
    /// The container type used to return intersection points for this shape pair.
    type Points;

    /// Whether the target lies completely inside this shape.
    spec fn spec_contains(&self, other: &T) -> bool;

    /// Whether the outlines of this shape and the target meet in at least one point.
    spec fn spec_meets(&self, other: &T) -> bool;

    /// Checks if the target is completely inside this shape.
    fn contains(&self, other: &T) -> (b: bool)
        ensures
            b == self.spec_contains(other),
    ;

    /// Returns all intersection points between this shape and the target, or `None` when
    /// their outlines do not meet.
    fn intersection_points(&self, other: &T) -> (r: Option<Self::Points>)
        ensures
            r is Some == self.spec_meets(other),
    ;

    /// Checks if this shape intersects with the target: the target lies inside it, or
    /// their outlines meet.
    fn intersects(&self, other: &T) -> (b: bool)
        ensures
            b == (self.spec_contains(other) || self.spec_meets(other)),
    {
        self.contains(other) || self.intersection_points(other).is_some()
    }
}

} // verus!
