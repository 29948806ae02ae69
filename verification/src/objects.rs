//! Spheres, the builder that mints them, and rays.

use vstd::prelude::*;
use crate::material::default_material;
use crate::material::Material;
use crate::math::identity_matrix;
use crate::math::Mat4;
use crate::math::Point4;
use crate::math::Vec4;

verus! {

/// The unit sphere about the origin of its own space, placed in the world by
/// its transform.
#[derive(Copy, Clone, PartialEq, Debug)]
pub struct Sphere {
    id: u32,
    transformation: Mat4,
    pub material: Material,
}

/// Mints spheres. Each one gets the next identity of this builder, and the
/// transform and material that were handed in since the last one was made.
/// Identities count up, so the spheres of one builder differ in identity
/// until it has made as many as there are identities.
pub struct SphereBuilder {
    transformation: Option<Mat4>,
    material: Option<Material>,
    next_id: u32,
}

/// The identity that is handed out after `id`: the next number, and zero
/// after the largest.
pub open spec fn following(id: u32) -> u32 {
    if id == u32::MAX {
        0
    } else {
        (id + 1) as u32
    }
}

impl SphereBuilder {
    /// The transform the next sphere will get, if one was handed in.
    pub closed spec fn pending_transformation(self) -> Option<Mat4> {
        self.transformation
    }

    /// The material the next sphere will get, if one was handed in.
    pub closed spec fn pending_material(self) -> Option<Material> {
        self.material
    }

    /// The identity the next sphere will get.
    pub closed spec fn next_identity(self) -> u32 {
        self.next_id
    }

    /// A builder with nothing pending, whose first sphere has identity 1.
    pub fn new() -> (b: SphereBuilder)
        ensures
            b.pending_transformation() is None,
            b.pending_material() is None,
            b.next_identity() == 1,
    {
        SphereBuilder { transformation: None, material: None, next_id: 1 }
    }

    /// A builder with nothing pending, whose first sphere has identity
    /// `first`: for a scene whose spheres come from more than one builder.
    pub fn starting_at(first: u32) -> (b: SphereBuilder)
        ensures
            b.pending_transformation() is None,
            b.pending_material() is None,
            b.next_identity() == first,
    {
        SphereBuilder { transformation: None, material: None, next_id: first }
    }

    /// The identity that the next sphere will get.
    pub fn next_id(&self) -> (id: u32)
        ensures
            id == self.next_identity(),
    {
        self.next_id
    }

    /// Sets the transform of the next sphere.
    pub fn with_transformation(&mut self, transformation: Mat4) -> (b: &mut SphereBuilder)
        ensures
            b.pending_transformation() == Some(transformation),
            b.pending_material() == old(self).pending_material(),
            b.next_identity() == old(self).next_identity(),
            *final(self) == *final(b),
    {
        self.transformation = Some(transformation);
        self
    }

    /// Sets the material of the next sphere.
    pub fn with_material(&mut self, material: Material) -> (b: &mut SphereBuilder)
        ensures
            b.pending_material() == Some(material),
            b.pending_transformation() == old(self).pending_transformation(),
            b.next_identity() == old(self).next_identity(),
            *final(self) == *final(b),
    {
        self.material = Some(material);
        self
    }

    /// Makes a sphere from what is pending, the identity transform and the
    /// default material standing in for what is not, and clears what was
    /// pending. The sphere made next will have another identity.
    pub fn create(&mut self) -> (s: Sphere)
        ensures
            s.ident() == old(self).next_identity(),
            s.placement() == (match old(self).pending_transformation() {
                Some(m) => m,
                None => identity_matrix(),
            }),
            s.surface() == (match old(self).pending_material() {
                Some(m) => m,
                None => default_material(),
            }),
            final(self).next_identity() == following(old(self).next_identity()),
            final(self).next_identity() != s.ident(),
            final(self).pending_transformation() is None,
            final(self).pending_material() is None,
    {
        let transformation = match self.transformation {
            Some(m) => m,
            None => Mat4::identity(),
        };
        let material = match self.material {
            Some(m) => m,
            None => Material::default(),
        };
        let result = Sphere::new(self.next_id, transformation, material);
        self.next_id = if self.next_id == u32::MAX {
            0
        } else {
            self.next_id + 1
        };
        self.transformation = None;
        self.material = None;
        result
    }
}

impl Sphere {
    /// The identity of the sphere.
    pub closed spec fn ident(self) -> u32 {
        self.id
    }

    /// The transform from the sphere's own space to the world.
    pub closed spec fn placement(self) -> Mat4 {
        self.transformation
    }

    /// The material of the sphere.
    pub closed spec fn surface(self) -> Material {
        self.material
    }

    pub(crate) fn new(id: u32, transformation: Mat4, material: Material) -> (s: Sphere)
        ensures
            s.ident() == id,
            s.placement() == transformation,
            s.surface() == material,
    {
        Sphere { id, transformation, material }
    }

    /// Replaces the transform. Composing it with the one in place is
    /// arithmetic: the caller hands in the product.
    pub fn set_transformation(&mut self, transformation: Mat4)
        ensures
            final(self).placement() == transformation,
            final(self).ident() == old(self).ident(),
            final(self).surface() == old(self).surface(),
    {
        self.transformation = transformation;
    }

    pub fn get_transformation(&self) -> (m: &Mat4)
        ensures
            *m == self.placement(),
    {
        &self.transformation
    }

    pub fn id(&self) -> (id: u32)
        ensures
            id == self.ident(),
    {
        self.id
    }
}

impl Default for Sphere {
    /// The sphere with identity 0, the identity transform and the default
    /// material.
    fn default() -> (s: Sphere)
        ensures
            s.ident() == 0,
            s.placement() == identity_matrix(),
            s.surface() == default_material(),
    {
        Sphere { id: 0, transformation: Mat4::identity(), material: Material::default() }
    }
}

/// A line through `origin` along `direction`, with a parameter that may be
/// negative.
#[derive(Copy, Clone, Debug)]
pub struct Ray {
    pub origin: Point4,
    pub direction: Vec4,
}

impl Ray {
    pub fn new(origin: Point4, direction: Vec4) -> (r: Ray)
        ensures
            r.origin == origin,
            r.direction == direction,
    {
        Ray { origin, direction }
    }
}

} // verus!
