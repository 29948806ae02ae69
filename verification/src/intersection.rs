//! Where a ray meets a sphere: single intersections, the collection that
//! keeps them in ascending order of distance, the visible hit, and what
//! shading needs to know about it.

use vstd::prelude::*;
use vstd::std_specs::cmp::PartialOrdSpecImpl;
use std::cmp::Ordering;
use crate::math::Point4;
use crate::math::Vec4;
use crate::objects::Ray;
use crate::objects::Sphere;
use crate::order::ascending;
use crate::order::inserted;
use crate::order::lemma_count_is;
use crate::order::lemma_inserted_ascending;
use crate::scalar::lemma_rank_orders_values;
use crate::scalar::Scalar;

verus! {

/// A ray meets `obj` at parameter `t` along the ray.
#[derive(Debug, PartialEq, Copy, Clone)]
pub struct Intersection<'a> {
    pub t: Scalar,
    pub obj: &'a Sphere,
}

impl<'a> Intersection<'a> {
    /// An intersection at a finite distance.
    pub fn new(t: Scalar, object: &'a Sphere) -> (i: Intersection<'a>)
        requires
            t.finite(),
        ensures
            i == (Intersection { t, obj: object }),
    {
        Intersection { t, obj: object }
    }

    /// Where the intersection stands in the order: the number that its
    /// distance stands for.
    pub open spec fn key(self) -> int {
        self.t.value()
    }
}

impl<'a> PartialOrd for Intersection<'a> {
    /// Intersections are ordered by their distance alone.
    fn partial_cmp(&self, other: &Self) -> (r: Option<Ordering>) {
        proof {
            lemma_rank_orders_values(self.t, other.t);
        }
        if self.t.is_nan() || other.t.is_nan() {
            None
        } else {
            let a: i64 = self.t.ordinal();
            let b: i64 = other.t.ordinal();
            if a < b {
                Some(Ordering::Less)
            } else if a == b {
                Some(Ordering::Equal)
            } else {
                Some(Ordering::Greater)
            }
        }
    }
}

impl<'a> PartialOrdSpecImpl for Intersection<'a> {
    open spec fn obeys_partial_cmp_spec() -> bool {
        true
    }

    open spec fn partial_cmp_spec(&self, other: &Self) -> Option<Ordering> {
        if self.t.nan() || other.t.nan() {
            None
        } else if self.key() < other.key() {
            Some(Ordering::Less)
        } else if self.key() == other.key() {
            Some(Ordering::Equal)
        } else {
            Some(Ordering::Greater)
        }
    }
}

/// Intersections in ascending order of distance, at all times.
#[derive(Debug, PartialEq)]
pub struct Intersections<'a> {
    items: Vec<Intersection<'a>>,
}

impl<'a> View for Intersections<'a> {
    type V = Seq<Intersection<'a>>;

    closed spec fn view(&self) -> Seq<Intersection<'a>> {
        self.items@
    }
}

impl<'a> Intersections<'a> {
    #[verifier::type_invariant]
    spec fn in_order(self) -> bool {
        ascending(self.items@)
    }

    /// The empty collection.
    pub fn new() -> (xs: Intersections<'a>)
        ensures
            xs@ == Seq::<Intersection<'a>>::empty(),
    {
        Intersections { items: Vec::new() }
    }

    pub fn len(&self) -> (n: usize)
        ensures
            n == self@.len(),
            ascending(self@),
    {
        proof {
            use_type_invariant(self);
        }
        self.items.len()
    }

    pub fn is_empty(&self) -> (r: bool)
        ensures
            r == (self@.len() == 0),
    {
        self.items.len() == 0
    }

    /// The item at place `i`, counted from the nearest.
    pub fn get(&self, i: usize) -> (x: &Intersection<'a>)
        requires
            i < self@.len(),
        ensures
            *x == self@[i as int],
    {
        &self.items[i]
    }

    /// The items in order.
    pub fn as_slice(&self) -> (s: &[Intersection<'a>])
        ensures
            s@ == self@,
            ascending(self@),
    {
        proof {
            use_type_invariant(self);
        }
        self.items.as_slice()
    }

    /// Puts `intersection` where it belongs: behind every item that is not
    /// farther than it, before every item that is.
    pub fn add(&mut self, intersection: Intersection<'a>)
        ensures
            final(self)@ == inserted(old(self)@, intersection),
            ascending(final(self)@),
    {
        proof {
            use_type_invariant(&*self);
        }
        let mut items: Vec<Intersection<'a>> = Vec::new();
        std::mem::swap(&mut items, &mut self.items);
        let ghost before = items@;
        let key: i64 = intersection.t.ordinal();
        let mut lo: usize = 0;
        let mut hi: usize = items.len();
        while lo < hi
            invariant
                items@ == before,
                ascending(before),
                0 <= lo <= hi <= before.len(),
                key == intersection.t.rank(),
                forall|i: int| 0 <= i < lo ==> before[i].key() <= intersection.key(),
                forall|i: int| hi <= i < before.len() ==> before[i].key() > intersection.key(),
            decreases hi - lo,
        {
            let mid: usize = lo + (hi - lo) / 2;
            proof {
                lemma_rank_orders_values(before[mid as int].t, intersection.t);
                lemma_rank_orders_values(intersection.t, before[mid as int].t);
            }
            if items[mid].t.ordinal() <= key {
                lo = mid + 1;
            } else {
                hi = mid;
            }
        }
        proof {
            lemma_count_is(before, intersection.key(), lo as int);
            lemma_inserted_ascending(before, intersection);
        }
        items.insert(lo, intersection);
        self.items = items;
    }
}

/// The ordered pair that the two roots `t1` and `t2` make on `sphere`: the
/// smaller first, and `t1` first where neither is smaller.
pub open spec fn root_pair<'a>(t1: Scalar, t2: Scalar, sphere: &'a Sphere) -> Seq<
    Intersection<'a>,
> {
    if t2.value() < t1.value() {
        seq![Intersection { t: t2, obj: sphere }, Intersection { t: t1, obj: sphere }]
    } else {
        seq![Intersection { t: t1, obj: sphere }, Intersection { t: t2, obj: sphere }]
    }
}

/// What solving the quadratic of a ray in the own space of a sphere gave:
/// the discriminant, and the two roots `(-b - sqrt(d)) / 2a` and
/// `(-b + sqrt(d)) / 2a`. Where the discriminant is below zero there are no
/// real roots, and what the two fields hold is not looked at.
#[derive(Debug, Copy, Clone, PartialEq)]
pub struct Roots {
    pub discriminant: Scalar,
    pub t1: Scalar,
    pub t2: Scalar,
}

impl Roots {
    /// Where there are roots, they are finite. A ray without length, whose
    /// roots are quotients by zero, is not admissible.
    pub open spec fn admissible(self) -> bool {
        !self.discriminant.negative() ==> self.t1.finite() && self.t2.finite()
    }

    pub fn is_admissible(&self) -> (b: bool)
        ensures
            b == self.admissible(),
    {
        self.discriminant.is_negative() || (self.t1.is_finite() && self.t2.is_finite())
    }

    /// The two roots, the smaller first, and `t1` first where neither is
    /// smaller.
    pub fn ordered(&self) -> (pair: (Scalar, Scalar))
        ensures
            pair == (if self.t2.value() < self.t1.value() {
                (self.t2, self.t1)
            } else {
                (self.t1, self.t2)
            }),
    {
        proof {
            lemma_rank_orders_values(self.t2, self.t1);
        }
        if self.t2.ordinal() < self.t1.ordinal() {
            (self.t2, self.t1)
        } else {
            (self.t1, self.t2)
        }
    }

    /// What the roots add to the intersections of the ray: nothing where
    /// the discriminant is below zero and the ray misses the sphere, else
    /// the ordered pair of the two roots, bound to `sphere`.
    pub open spec fn on<'a>(self, sphere: &'a Sphere) -> Seq<Intersection<'a>> {
        if self.discriminant.negative() {
            Seq::empty()
        } else {
            root_pair(self.t1, self.t2, sphere)
        }
    }
}

/// The intersections of a ray with `sphere`, from the roots of the quadratic
/// that the ray makes in the sphere's own space: `None` where the
/// discriminant is below zero and the ray misses, else both roots in
/// ascending order, bound to `sphere` as it was handed in. A tangent ray has
/// two equal roots, and both are kept.
pub fn intersect<'a>(roots: &Roots, sphere: &'a Sphere) -> (r: Option<Intersections<'a>>)
    requires
        roots.admissible(),
    ensures
        r is None <==> roots.discriminant.negative(),
        r matches Some(xs) ==> xs@ == root_pair(roots.t1, roots.t2, sphere),
{
    if roots.discriminant.is_negative() {
        None
    } else {
        let (near, far) = roots.ordered();
        let mut intersections = Intersections::new();
        intersections.add(Intersection::new(near, sphere));
        intersections.add(Intersection::new(far, sphere));
        proof {
            let first = Intersection { t: near, obj: sphere };
            let second = Intersection { t: far, obj: sphere };
            let empty = Seq::<Intersection<'a>>::empty();
            lemma_count_is(empty, first.key(), 0);
            assert(inserted(empty, first) =~= seq![first]);
            lemma_count_is(seq![first], second.key(), 1);
            assert(inserted(seq![first], second) =~= seq![first, second]);
        }
        Some(intersections)
    }
}

/// Place `k` of `s` holds the first item that lies ahead of the ray's
/// origin.
pub open spec fn first_ahead<'a>(s: Seq<Intersection<'a>>, k: int) -> bool {
    &&& 0 <= k < s.len()
    &&& s[k].t.positive()
    &&& forall|i: int| 0 <= i < k ==> !s[i].t.positive()
}

/// Which of two roots is visible. Two roots make two intersections, also
/// where they are equal. Where both lie ahead of the origin the smaller is
/// visible; where the origin lies between them, inside the sphere, the one
/// ahead; where neither lies ahead, nothing.
pub proof fn lemma_visible_root<'a>(t1: Scalar, t2: Scalar, sphere: &'a Sphere)
    requires
        t1.finite(),
        t2.finite(),
    ensures
        root_pair(t1, t2, sphere).len() == 2,
        ascending(root_pair(t1, t2, sphere)),
        t1.positive() && t2.positive() ==> first_ahead(root_pair(t1, t2, sphere), 0),
        t1.positive() != t2.positive() ==> first_ahead(root_pair(t1, t2, sphere), 1),
        !t1.positive() && !t2.positive() ==> forall|k: int|
            !first_ahead(root_pair(t1, t2, sphere), k),
{
}

/// The visible hit: the nearest intersection that lies ahead of the ray's
/// origin, if there is one. Those at the origin or behind it are passed
/// over.
pub fn hit<'a, 'b>(intersections: &'b Intersections<'a>) -> (r: Option<&'b Intersection<'a>>)
    ensures
        r is None <==> forall|i: int|
            0 <= i < intersections@.len() ==> !intersections@[i].t.positive(),
        r matches Some(h) ==> exists|k: int|
            first_ahead(intersections@, k) && *h == intersections@[k],
        r matches Some(h) ==> forall|i: int|
            0 <= i < intersections@.len() && intersections@[i].t.positive() ==> h.key()
                <= intersections@[i].key(),
{
    let n: usize = intersections.len();
    let mut i: usize = 0;
    while i < n
        invariant
            n == intersections@.len(),
            0 <= i <= n,
            ascending(intersections@),
            forall|j: int| 0 <= j < i ==> !intersections@[j].t.positive(),
        decreases n - i,
    {
        let x = intersections.get(i);
        if x.t.is_positive() {
            assert(first_ahead(intersections@, i as int));
            return Some(x);
        }
        i = i + 1;
    }
    None
}

/// What shading needs to know about a hit.
#[derive(Debug, Copy, Clone)]
pub struct Precomputation<'a> {
    pub t: Scalar,
    pub obj: &'a Sphere,
    /// Where the ray meets the surface, in the world.
    pub point: Point4,
    /// From the surface towards the eye.
    pub eyev: Vec4,
    /// The normal of the surface, on the side of the eye.
    pub normalv: Vec4,
    /// Whether the eye is inside the sphere.
    pub inside: bool,
}

impl<'a> Precomputation<'a> {
    /// Puts together what shading needs. `point` is the position of the ray
    /// at the hit, `normal` the outward normal there, and `normal_dot_eye`
    /// the dot product of that normal with the eye vector. The eye vector
    /// is the ray's direction reversed. The eye is inside the sphere exactly
    /// when the outward normal points away from it, which is when that dot
    /// product is below zero; the stored normal is then the outward normal
    /// reversed, and the outward normal itself otherwise.
    pub fn compute(
        intersection: &Intersection<'a>,
        ray: &Ray,
        point: Point4,
        normal: Vec4,
        normal_dot_eye: Scalar,
    ) -> (p: Precomputation<'a>)
        ensures
            p.t == intersection.t,
            p.obj == intersection.obj,
            p.point == point,
            p.eyev == ray.direction.negated(),
            p.inside == normal_dot_eye.negative(),
            p.normalv == (if p.inside {
                normal.negated()
            } else {
                normal
            }),
    {
        let inside = normal_dot_eye.is_negative();
        Precomputation {
            t: intersection.t,
            obj: intersection.obj,
            point,
            eyev: ray.direction.neg(),
            normalv: if inside {
                normal.neg()
            } else {
                normal
            },
            inside,
        }
    }
}

} // verus!
