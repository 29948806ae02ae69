//! The light of a scene, and which of its terms reach the eye.

use vstd::prelude::*;
use crate::math::Color;
use crate::math::Point4;
use crate::scalar::Scalar;

verus! {

/// A light without size, shining from `position` with `intensity` in every
/// direction.
#[derive(Debug, Copy, Clone, PartialEq)]
pub struct PointLight {
    pub position: Point4,
    pub intensity: Color,
}

impl PointLight {
    pub fn new(position: Point4, intensity: Color) -> (l: PointLight)
        ensures
            l == (PointLight { position, intensity }),
    {
        PointLight { position, intensity }
    }
}

/// The terms of the Phong model that reach the eye from a point of a
/// surface. The ambient term always does.
#[derive(Debug, Copy, Clone, PartialEq, Eq, Structural)]
pub enum Terms {
    /// The light is behind the surface: no diffuse light, no highlight.
    Ambient,
    /// The light is before the surface, and its reflection points away from
    /// the eye: diffuse light, no highlight.
    Diffuse,
    /// The light is before the surface, and its reflection points towards
    /// the eye: diffuse light and a highlight.
    Specular,
}

/// Which terms reach the eye. `light_dot_normal` is the dot product of the
/// direction to the light with the normal: below zero, the light is behind
/// the surface. `reflect_dot_eye` is the dot product of the reflected light
/// with the eye vector: above zero, the reflection points towards the eye.
pub open spec fn terms_for(light_dot_normal: Scalar, reflect_dot_eye: Scalar) -> Terms {
    if light_dot_normal.negative() {
        Terms::Ambient
    } else if reflect_dot_eye.positive() {
        Terms::Specular
    } else {
        Terms::Diffuse
    }
}

impl Terms {
    /// Decides which terms reach the eye.
    pub fn of(light_dot_normal: Scalar, reflect_dot_eye: Scalar) -> (t: Terms)
        ensures
            t == terms_for(light_dot_normal, reflect_dot_eye),
    {
        if light_dot_normal.is_negative() {
            Terms::Ambient
        } else if reflect_dot_eye.is_positive() {
            Terms::Specular
        } else {
            Terms::Diffuse
        }
    }
}

} // verus!
