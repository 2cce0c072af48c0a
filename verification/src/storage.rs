//! Append-only pool of fixed-point points addressed by stable handles.

use vstd::prelude::*;

use crate::fixed::Vec3;

verus! {

/// Opaque, stable handle into one [`VecStorage`]: the dense 0-based index a
/// point was stored at. Handles are never reused or invalidated by later
/// stores.
#[derive(Debug, PartialEq, Eq, Clone, Copy, Structural)]
pub struct Point3ID(pub usize);

impl From<usize> for Point3ID {
    fn from(val: usize) -> Self {
        Point3ID(val)
    }
}

impl vstd::std_specs::convert::FromSpecImpl<usize> for Point3ID {
    open spec fn obeys_from_spec() -> bool {
        true
    }

    open spec fn from_spec(val: usize) -> Point3ID {
        Point3ID(val)
    }
}

/// What a bounds-checked lookup returns: the point at `id` while `id` is in
/// range, and no value otherwise.
pub open spec fn spec_get(s: Seq<Vec3>, id: Point3ID) -> Option<Vec3> {
    if id.0 < s.len() {
        Some(s[id.0 as int])
    } else {
        None
    }
}

/// The only owner and mutator of stored points; viewed as the sequence of
/// points in storage order.
#[derive(Debug)]
pub struct VecStorage {
    points: Vec<Vec3>,
}

impl View for VecStorage {
    type V = Seq<Vec3>;

    closed spec fn view(&self) -> Seq<Vec3> {
        self.points@
    }
}

impl VecStorage {
    pub fn new() -> (s: VecStorage)
        ensures
            s@ == Seq::<Vec3>::empty(),
    {
        VecStorage { points: Vec::new() }
    }

    pub fn from_vec(points: Vec<Vec3>) -> (s: VecStorage)
        ensures
            s@ == points@,
    {
        VecStorage { points }
    }

    pub fn with_capacity(capacity: usize) -> (s: VecStorage)
        ensures
            s@ == Seq::<Vec3>::empty(),
    {
        VecStorage { points: Vec::with_capacity(capacity) }
    }

    pub fn len(&self) -> (n: usize)
        ensures
            n == self@.len(),
    {
        self.points.len()
    }

    /// Appends a point; the returned handle is the pre-insertion length, so
    /// issued handles form a dense, monotonically increasing sequence.
    pub fn store(&mut self, element: Vec3) -> (id: Point3ID)
        ensures
            final(self)@ == old(self)@.push(element),
            id.0 == old(self)@.len(),
    {
        self.points.push(element);
        Point3ID(self.points.len() - 1)
    }

    /// Bounds-checked lookup: no value for a handle at or past the length.
    pub fn get(&self, id: Point3ID) -> (r: Option<Vec3>)
        ensures
            r == spec_get(self@, id),
    {
        if self.points.len() > id.0 {
            Some(self.get_unchecked(id))
        } else {
            None
        }
    }

    /// Unchecked lookup for the hot path; callers must have established
    /// `id.0 < self@.len()` (the model constructor does so once for every
    /// triangle handle).
    pub fn get_unchecked(&self, id: Point3ID) -> (p: Vec3)
        requires
            id.0 < self@.len(),
        ensures
            p == self@[id.0 as int],
    {
        self.points[id.0]
    }

    /// Bounds-checked overwrite, the mutable counterpart of [`Self::get`]:
    /// reports whether the handle was in range and the point was replaced.
    pub fn set(&mut self, id: Point3ID, element: Vec3) -> (ok: bool)
        ensures
            ok == (id.0 < old(self)@.len()),
            final(self)@ == if id.0 < old(self)@.len() {
                old(self)@.update(id.0 as int, element)
            } else {
                old(self)@
            },
    {
        if self.points.len() > id.0 {
            self.points[id.0] = element;
            true
        } else {
            false
        }
    }

    /// Unchecked overwrite, the mutable counterpart of [`Self::get_unchecked`].
    pub fn set_unchecked(&mut self, id: Point3ID, element: Vec3)
        requires
            id.0 < old(self)@.len(),
        ensures
            final(self)@ == old(self)@.update(id.0 as int, element),
    {
        self.points[id.0] = element;
    }

    /// Applies `f` to every stored point, in storage order, in place, exactly
    /// once per point; the store is neither reordered nor resized.
    pub fn update_all<F: Fn(Vec3) -> Vec3>(&mut self, f: F)
        requires
            forall|p: Vec3| #[trigger] call_requires(f, (p,)),
        ensures
            final(self)@.len() == old(self)@.len(),
            forall|i: int|
                0 <= i < old(self)@.len() ==> call_ensures(
                    f,
                    (old(self)@[i],),
                    #[trigger] final(self)@[i],
                ),
    {
        let n: usize = self.points.len();
        let mut j: usize = 0;
        while j < n
            invariant
                forall|p: Vec3| #[trigger] call_requires(f, (p,)),
                j <= n,
                n == self.points@.len(),
                self.points@.len() == old(self)@.len(),
                forall|i: int|
                    0 <= i < j ==> call_ensures(f, (old(self)@[i],), #[trigger] self.points@[i]),
                forall|i: int| j <= i < n ==> self.points@[i] == old(self)@[i],
            decreases n - j,
        {
            let p: Vec3 = self.points[j];
            let q: Vec3 = f(p);
            self.points[j] = q;
            j = j + 1;
        }
    }
}

/// Round trip: storing a point and reading it back through the handle the
/// store returned yields exactly that point.
pub proof fn lemma_store_get_round_trip(s: Seq<Vec3>, p: Vec3, id: Point3ID)
    requires
        id.0 == s.len(),
    ensures
        spec_get(s.push(p), id) == Some(p),
{
}

/// Bounds: a lookup with a handle at or past the length returns no value.
pub proof fn lemma_get_out_of_bounds(s: Seq<Vec3>, id: Point3ID)
    requires
        id.0 >= s.len(),
    ensures
        spec_get(s, id) is None,
{
}

/// Animation round trip: mapping every point through `f` and then through an
/// inverse `g` of `f` restores the original point sequence exactly.
pub proof fn lemma_update_all_round_trip(
    s0: Seq<Vec3>,
    s1: Seq<Vec3>,
    s2: Seq<Vec3>,
    f: spec_fn(Vec3) -> Vec3,
    g: spec_fn(Vec3) -> Vec3,
)
    requires
        forall|p: Vec3| #[trigger] g(f(p)) == p,
        s1 == s0.map_values(f),
        s2 == s1.map_values(g),
    ensures
        s2 == s0,
{
    assert(s2 =~= s0);
}

} // verus!
