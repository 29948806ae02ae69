//! Surface coefficients of the Phong model.

use vstd::prelude::*;
use crate::math::Color;
use crate::scalar::lemma_approximates;
use crate::scalar::lemma_rank_orders_values;
use crate::scalar::one;
use crate::scalar::zero;
use crate::scalar::Scalar;
use crate::scalar::ONE_BITS;

verus! {

/// How a surface answers light: its base colour, the shares of ambient,
/// diffuse and specular light it returns, and how tight its highlight is.
#[derive(Clone, Copy, Debug, PartialEq, Eq)]
pub struct Material {
    pub color: Color,
    pub ambient: Scalar,
    pub diffuse: Scalar,
    pub specular: Scalar,
    pub shininess: Scalar,
}

/// A number between zero and one, both included.
pub open spec fn is_share(s: Scalar) -> bool {
    !s.nan() && 0 <= s.value() <= one().value()
}

/// Whether a bit pattern is a share can be read off its rank.
pub proof fn lemma_share_by_rank(s: Scalar)
    ensures
        is_share(s) == (!s.nan() && 0 <= s.rank() <= ONE_BITS),
{
    lemma_rank_orders_values(s, one());
    lemma_rank_orders_values(one(), s);
    lemma_rank_orders_values(s, zero());
    lemma_rank_orders_values(zero(), s);
}

/// Whether `s` is a number between zero and one.
pub fn holds_share(s: Scalar) -> (b: bool)
    ensures
        b == is_share(s),
{
    proof {
        lemma_share_by_rank(s);
    }
    let rank: i64 = s.ordinal();
    !s.is_nan() && 0 <= rank && rank <= 0x3f80_0000
}

/// The coefficients of the default material: white, with ambient 0.1,
/// diffuse 0.9, specular 0.9 and shininess 200.
pub open spec fn default_material() -> Material {
    Material {
        color: Color { rgb: [one(), one(), one()] },
        ambient: Scalar { bits: 0x3dcc_cccd },
        diffuse: Scalar { bits: 0x3f66_6666 },
        specular: Scalar { bits: 0x3f66_6666 },
        shininess: Scalar { bits: 0x4348_0000 },
    }
}

/// The numbers of the default material: its shares are the binary32 values
/// nearest to a tenth and to nine tenths, and its shininess is 200.
pub proof fn lemma_default_material_numbers()
    ensures
        default_material().ambient.approximates(1, 10),
        default_material().diffuse.approximates(9, 10),
        default_material().specular.approximates(9, 10),
        default_material().shininess.is_fraction(200, 1),
        default_material().color == (Color { rgb: [one(), one(), one()] }),
        default_material().valid(),
{
    vstd::arithmetic::power2::lemma2_to64();
    lemma_approximates(default_material().ambient, 1, 10, 27);
    lemma_approximates(default_material().diffuse, 9, 10, 24);
    lemma_approximates(default_material().shininess, 200, 1, 16);
    lemma_share_by_rank(default_material().ambient);
    lemma_share_by_rank(default_material().diffuse);
    lemma_rank_orders_values(zero(), default_material().shininess);
}

impl Material {
    /// The three shares lie between zero and one and the shininess is
    /// positive.
    pub open spec fn valid(self) -> bool {
        &&& is_share(self.ambient)
        &&& is_share(self.diffuse)
        &&& is_share(self.specular)
        &&& self.shininess.positive()
    }

    /// Whether the coefficients are in range.
    pub fn is_valid(&self) -> (b: bool)
        ensures
            b == self.valid(),
    {
        holds_share(self.ambient) && holds_share(self.diffuse) && holds_share(self.specular)
            && self.shininess.is_positive()
    }

    pub fn new(
        color: Color,
        ambient: Scalar,
        diffuse: Scalar,
        specular: Scalar,
        shininess: Scalar,
    ) -> (m: Material)
        requires
            is_share(ambient),
            is_share(diffuse),
            is_share(specular),
            shininess.positive(),
        ensures
            m == (Material { color, ambient, diffuse, specular, shininess }),
            m.valid(),
    {
        Material { color, ambient, diffuse, specular, shininess }
    }

    /// The default material in another colour.
    pub fn default_with_color(color: Color) -> (m: Material)
        ensures
            m == (Material { color, ..default_material() }),
            m.valid(),
    {
        proof {
            lemma_share_by_rank(default_material().ambient);
            lemma_share_by_rank(default_material().diffuse);
            lemma_rank_orders_values(zero(), default_material().shininess);
        }
        Material {
            color,
            ambient: Scalar::from_bits(0x3dcc_cccd),
            diffuse: Scalar::from_bits(0x3f66_6666),
            specular: Scalar::from_bits(0x3f66_6666),
            shininess: Scalar::from_bits(0x4348_0000),
        }
    }
}

impl Default for Material {
    fn default() -> (m: Material)
        ensures
            m == default_material(),
            m.valid(),
    {
        Material::default_with_color(Color::new(Scalar::one(), Scalar::one(), Scalar::one()))
    }
}

} // verus!
