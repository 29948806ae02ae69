//! A scene: its spheres and its one light.

use vstd::prelude::*;
use crate::intersection::first_ahead;
use crate::intersection::hit;
use crate::intersection::Intersection;
use crate::intersection::Intersections;
use crate::intersection::Roots;
use crate::light::PointLight;
use crate::material::default_material;
use crate::material::lemma_share_by_rank;
use crate::material::Material;
use crate::math::identity_matrix;
use crate::math::point;
use crate::math::scaling;
use crate::math::scaling_matrix;
use crate::math::Color;
use crate::math::Point4;
use crate::objects::Sphere;
use crate::order::ascending;
use crate::order::inserted_all;
use crate::order::lemma_inserted_all_ascending;
use crate::order::lemma_inserted_all_push;
use crate::objects::SphereBuilder;
use crate::scalar::lemma_approximates;
use crate::scalar::lemma_rank_orders_values;
use crate::scalar::one;
use crate::scalar::zero;
use crate::scalar::Scalar;

verus! {

/// The spheres of a scene, in the order in which they were handed in, and
/// the light that shines on them.
pub struct World {
    objects: Vec<Sphere>,
    light_source: PointLight,
}

/// What the first `n` spheres add to the intersections of a ray, one after
/// the other.
pub open spec fn gathered<'a>(objects: Seq<Sphere>, roots: Seq<Roots>, n: nat) -> Seq<
    Intersection<'a>,
>
    decreases n,
{
    if n == 0 {
        Seq::empty()
    } else {
        gathered(objects, roots, (n - 1) as nat) + roots[n - 1].on(&objects[n - 1])
    }
}

/// Half, as a ghost value.
pub open spec fn half() -> Scalar {
    Scalar { bits: 0x3f00_0000 }
}

/// The material of the second sphere of the default scene: colour
/// (0.8, 1.0, 0.6), ambient 0.1, diffuse 0.7, specular 0.2, shininess 200.
pub open spec fn tinted_material() -> Material {
    Material {
        color: Color {
            rgb: [Scalar { bits: 0x3f4c_cccd }, one(), Scalar { bits: 0x3f19_999a }],
        },
        ambient: Scalar { bits: 0x3dcc_cccd },
        diffuse: Scalar { bits: 0x3f33_3333 },
        specular: Scalar { bits: 0x3e4c_cccd },
        shininess: Scalar { bits: 0x4348_0000 },
    }
}

/// The light of the default scene: white, at (-10, 10, -10).
pub open spec fn default_light() -> PointLight {
    PointLight {
        position: Point4 {
            x: Scalar { bits: 0xc120_0000 },
            y: Scalar { bits: 0x4120_0000 },
            z: Scalar { bits: 0xc120_0000 },
            w: one(),
        },
        intensity: Color { rgb: [one(), one(), one()] },
    }
}

/// The numbers of the default scene: the first sphere is scaled by a half;
/// the colour of the second is nearest to (4/5, 1, 3/5) and its shares to a
/// tenth, seven tenths and a fifth, with shininess 200; the light stands at
/// (-10, 10, -10).
pub proof fn lemma_default_scene_numbers()
    ensures
        half().is_fraction(1, 2),
        tinted_material().color.rgb[0].approximates(4, 5),
        tinted_material().color.rgb[1].is_fraction(1, 1),
        tinted_material().color.rgb[2].approximates(3, 5),
        tinted_material().ambient.approximates(1, 10),
        tinted_material().diffuse.approximates(7, 10),
        tinted_material().specular.approximates(1, 5),
        tinted_material().shininess.is_fraction(200, 1),
        tinted_material().valid(),
        default_light().position.x.is_fraction(-10, 1),
        default_light().position.y.is_fraction(10, 1),
        default_light().position.z.is_fraction(-10, 1),
        default_light().position.w == one(),
{
    vstd::arithmetic::power2::lemma2_to64();
    lemma_approximates(half(), 1, 2, 24);
    lemma_approximates(tinted_material().color.rgb[0], 4, 5, 24);
    lemma_approximates(one(), 1, 1, 23);
    lemma_approximates(tinted_material().color.rgb[2], 3, 5, 24);
    lemma_approximates(tinted_material().ambient, 1, 10, 27);
    lemma_approximates(tinted_material().diffuse, 7, 10, 24);
    lemma_approximates(tinted_material().specular, 1, 5, 26);
    lemma_approximates(tinted_material().shininess, 200, 1, 16);
    lemma_approximates(default_light().position.x, -10, 1, 20);
    lemma_approximates(default_light().position.y, 10, 1, 20);
    lemma_share_by_rank(tinted_material().ambient);
    lemma_share_by_rank(tinted_material().diffuse);
    lemma_share_by_rank(tinted_material().specular);
    lemma_rank_orders_values(zero(), tinted_material().shininess);
}

impl World {
    /// The spheres, in order.
    pub closed spec fn shapes(self) -> Seq<Sphere> {
        self.objects@
    }

    /// The light.
    pub closed spec fn light(self) -> PointLight {
        self.light_source
    }

    /// What all spheres of the world add to the intersections of a ray, in
    /// the order of the spheres.
    pub open spec fn all_roots<'a>(self, roots: Seq<Roots>) -> Seq<Intersection<'a>> {
        gathered(self.shapes(), roots, self.shapes().len())
    }

    pub fn new(objects: Vec<Sphere>, light_source: PointLight) -> (w: World)
        ensures
            w.shapes() == objects@,
            w.light() == light_source,
    {
        World { objects, light_source }
    }

    pub fn objects(&self) -> (v: &Vec<Sphere>)
        ensures
            v@ == self.shapes(),
    {
        &self.objects
    }

    pub fn light_source(&self) -> (l: &PointLight)
        ensures
            *l == self.light(),
    {
        &self.light_source
    }

    /// All intersections of one ray with the spheres of the world, nearest
    /// first. `roots[i]` holds what solving the quadratic of the ray gave
    /// for sphere `i`. Intersections at the same distance stay in the order
    /// of their spheres.
    pub fn ray_intersect<'a>(&'a self, roots: &Vec<Roots>) -> (r: Intersections<'a>)
        requires
            roots@.len() == self.shapes().len(),
            forall|i: int| 0 <= i < roots@.len() ==> (#[trigger] roots@[i]).admissible(),
        ensures
            r@ == inserted_all(Seq::empty(), self.all_roots(roots@)),
            ascending(r@),
            r@.to_multiset() == self.all_roots(roots@).to_multiset(),
    {
        let mut result = Intersections::new();
        let n: usize = self.objects.len();
        let mut i: usize = 0;
        while i < n
            invariant
                n == self.objects@.len(),
                n == roots@.len(),
                0 <= i <= n,
                forall|j: int| 0 <= j < roots@.len() ==> (#[trigger] roots@[j]).admissible(),
                result@ == inserted_all(
                    Seq::empty(),
                    gathered(self.objects@, roots@, i as nat),
                ),
            decreases n - i,
        {
            let ghost before = gathered(self.objects@, roots@, i as nat);
            let found = roots[i];
            if found.discriminant.is_negative() {
                proof {
                    let after = gathered(self.objects@, roots@, (i + 1) as nat);
                    assert(after =~= before);
                }
            } else {
                let object = &self.objects[i];
                let (near, far) = found.ordered();
                let first = Intersection::new(near, object);
                let second = Intersection::new(far, object);
                result.add(first);
                result.add(second);
                proof {
                    let after = gathered(self.objects@, roots@, (i + 1) as nat);
                    assert(after =~= before.push(first).push(second));
                    lemma_inserted_all_push(Seq::empty(), before, first);
                    lemma_inserted_all_push(Seq::empty(), before.push(first), second);
                }
            }
            i = i + 1;
        }
        proof {
            let all = gathered(self.objects@, roots@, n as nat);
            lemma_inserted_all_ascending(Seq::empty(), all);
            assert(Seq::<Intersection<'a>>::empty().to_multiset().add(all.to_multiset())
                =~= all.to_multiset()) by {
                Seq::<Intersection<'a>>::empty().to_multiset_ensures();
            }
        }
        result
    }

    /// What a ray shows of the world: the nearest intersection, over all
    /// spheres, that lies ahead of the ray's origin, or `None` where there
    /// is none and the ray shows the background. `roots` is as in
    /// [`World::ray_intersect`]. Of several spheres at the nearest distance
    /// the first in the world is shown.
    pub fn visible_hit<'a>(&'a self, roots: &Vec<Roots>) -> (r: Option<Intersection<'a>>)
        requires
            roots@.len() == self.shapes().len(),
            forall|i: int| 0 <= i < roots@.len() ==> (#[trigger] roots@[i]).admissible(),
        ensures
            r is None <==> forall|i: int|
                0 <= i < self.all_roots(roots@).len() ==> !self.all_roots(roots@)[i].t.positive(),
            r matches Some(h) ==> self.all_roots(roots@).contains(h) && h.t.positive(),
            r matches Some(h) ==> forall|i: int|
                0 <= i < self.all_roots(roots@).len() && self.all_roots(roots@)[i].t.positive()
                    ==> h.key() <= self.all_roots(roots@)[i].key(),
            r matches Some(h) ==> exists|k: int|
                first_ahead(inserted_all(Seq::empty(), self.all_roots(roots@)), k) && h
                    == inserted_all(Seq::empty(), self.all_roots(roots@))[k],
    {
        let sorted = self.ray_intersect(roots);
        let ghost all = self.all_roots(roots@);
        proof {
            all.to_multiset_ensures();
            sorted@.to_multiset_ensures();
            assert forall|i: int| 0 <= i < all.len() implies sorted@.contains(
                #[trigger] all[i],
            ) by {
                assert(all.contains(all[i]));
                assert(all.to_multiset().count(all[i]) > 0);
            }
            assert forall|i: int| 0 <= i < sorted@.len() implies all.contains(
                #[trigger] sorted@[i],
            ) by {
                assert(sorted@.contains(sorted@[i]));
                assert(sorted@.to_multiset().count(sorted@[i]) > 0);
            }
        }
        match hit(&sorted) {
            Some(h) => {
                proof {
                    assert forall|i: int| 0 <= i < all.len() && all[i].t.positive() implies h.key()
                        <= all[i].key() by {
                        assert(sorted@.contains(all[i]));
                    }
                }
                Some(*h)
            },
            None => {
                proof {
                    assert forall|i: int| 0 <= i < all.len() implies !all[i].t.positive() by {
                        assert(sorted@.contains(all[i]));
                    }
                }
                None
            },
        }
    }
}

impl Default for World {
    /// The default scene: a sphere of half size with the default material,
    /// a unit sphere with a tinted material, and a white light up and to
    /// the left behind the eye.
    fn default() -> (w: World)
        ensures
            w.shapes().len() == 2,
            w.shapes()[0].ident() == 1,
            w.shapes()[0].placement() == scaling_matrix(half(), half(), half()),
            w.shapes()[0].surface() == default_material(),
            w.shapes()[1].ident() == 2,
            w.shapes()[1].placement() == identity_matrix(),
            w.shapes()[1].surface() == tinted_material(),
            w.light() == default_light(),
    {
        proof {
            lemma_share_by_rank(tinted_material().ambient);
            lemma_share_by_rank(tinted_material().diffuse);
            lemma_share_by_rank(tinted_material().specular);
            lemma_rank_orders_values(zero(), tinted_material().shininess);
        }
        let mut sb = SphereBuilder::new();
        let h = Scalar::from_bits(0x3f00_0000);
        let s1 = sb.with_transformation(scaling(h, h, h)).create();
        let s2 = sb.with_material(
            Material::new(
                Color::new(
                    Scalar::from_bits(0x3f4c_cccd),
                    Scalar::one(),
                    Scalar::from_bits(0x3f19_999a),
                ),
                Scalar::from_bits(0x3dcc_cccd),
                Scalar::from_bits(0x3f33_3333),
                Scalar::from_bits(0x3e4c_cccd),
                Scalar::from_bits(0x4348_0000),
            ),
        ).create();
        let mut objects: Vec<Sphere> = Vec::new();
        objects.push(s1);
        objects.push(s2);
        let light = PointLight::new(
            point(
                Scalar::from_bits(0xc120_0000),
                Scalar::from_bits(0x4120_0000),
                Scalar::from_bits(0xc120_0000),
            ),
            Color::new(Scalar::one(), Scalar::one(), Scalar::one()),
        );
        World { objects, light_source: light }
    }
}

} // verus!
