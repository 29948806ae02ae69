//! Homogeneous points and vectors, 4x4 transforms and colours, as data.
//!
//! A transform built here is applied, composed and inverted by the caller's
//! arithmetic; this module fixes which entry holds what, and shows what the
//! matrices it builds do to a tuple when the arithmetic is exact.

use vstd::prelude::*;
use crate::scalar::one;
use crate::scalar::zero;
use crate::scalar::Scalar;

verus! {

/// A position: a homogeneous 4-tuple whose last component is one.
#[derive(Clone, Copy, Debug, PartialEq, Eq, Structural)]
pub struct Point4 {
    pub x: Scalar,
    pub y: Scalar,
    pub z: Scalar,
    pub w: Scalar,
}

/// A displacement: a homogeneous 4-tuple whose last component is zero, so
/// that a translation leaves it alone.
#[derive(Clone, Copy, Debug, PartialEq, Eq, Structural)]
pub struct Vec4 {
    pub x: Scalar,
    pub y: Scalar,
    pub z: Scalar,
    pub w: Scalar,
}

/// A 4x4 matrix, `rows[r][c]` being the entry in row `r` and column `c`.
#[derive(Clone, Copy, Debug, PartialEq, Eq)]
pub struct Mat4 {
    pub rows: [[Scalar; 4]; 4],
}

/// Three colour channels, unclamped.
#[derive(Clone, Copy, Debug, PartialEq, Eq)]
pub struct Color {
    pub rgb: [Scalar; 3],
}

/// The point `(x, y, z)`.
pub fn point(x: Scalar, y: Scalar, z: Scalar) -> (p: Point4)
    ensures
        p == (Point4 { x, y, z, w: one() }),
{
    Point4 { x, y, z, w: Scalar::one() }
}

/// The vector `(x, y, z)`.
pub fn vector(x: Scalar, y: Scalar, z: Scalar) -> (v: Vec4)
    ensures
        v == (Vec4 { x, y, z, w: zero() }),
{
    Vec4 { x, y, z, w: Scalar::zero() }
}

impl Vec4 {
    /// The vector with every component negated.
    pub open spec fn negated(self) -> Vec4 {
        Vec4 {
            x: self.x.negated(),
            y: self.y.negated(),
            z: self.z.negated(),
            w: self.w.negated(),
        }
    }

    /// The opposite vector.
    pub fn neg(self) -> (v: Vec4)
        ensures
            v == self.negated(),
    {
        Vec4 { x: self.x.neg(), y: self.y.neg(), z: self.z.neg(), w: self.w.neg() }
    }
}

/// The identity: one on the diagonal, zero elsewhere.
pub open spec fn identity_matrix() -> Mat4 {
    Mat4 {
        rows: [
            [one(), zero(), zero(), zero()],
            [zero(), one(), zero(), zero()],
            [zero(), zero(), one(), zero()],
            [zero(), zero(), zero(), one()],
        ],
    }
}

/// The translation by `(x, y, z)`: the identity with the offsets in the last
/// column.
pub open spec fn translation_matrix(x: Scalar, y: Scalar, z: Scalar) -> Mat4 {
    Mat4 {
        rows: [
            [one(), zero(), zero(), x],
            [zero(), one(), zero(), y],
            [zero(), zero(), one(), z],
            [zero(), zero(), zero(), one()],
        ],
    }
}

/// The scaling by `(x, y, z)`: the identity with the factors on the first
/// three places of the diagonal.
pub open spec fn scaling_matrix(x: Scalar, y: Scalar, z: Scalar) -> Mat4 {
    Mat4 {
        rows: [
            [x, zero(), zero(), zero()],
            [zero(), y, zero(), zero()],
            [zero(), zero(), z, zero()],
            [zero(), zero(), zero(), one()],
        ],
    }
}

/// The shear in which each of the first three coordinates moves in
/// proportion to the two others: `xy` is how much x moves per unit of y, and
/// so on.
pub open spec fn shear_matrix(
    xy: Scalar,
    xz: Scalar,
    yx: Scalar,
    yz: Scalar,
    zx: Scalar,
    zy: Scalar,
) -> Mat4 {
    Mat4 {
        rows: [
            [one(), xy, xz, zero()],
            [yx, one(), yz, zero()],
            [zx, zy, one(), zero()],
            [zero(), zero(), zero(), one()],
        ],
    }
}

impl Mat4 {
    /// The entry in row `r` and column `c`.
    pub open spec fn entry(self, r: int, c: int) -> Scalar {
        self.rows[r][c]
    }

    /// The transform that changes nothing.
    pub fn identity() -> (m: Mat4)
        ensures
            m == identity_matrix(),
    {
        let o = Scalar::zero();
        let i = Scalar::one();
        Mat4 { rows: [[i, o, o, o], [o, i, o, o], [o, o, i, o], [o, o, o, i]] }
    }

    /// Reads one entry.
    pub fn get(&self, r: usize, c: usize) -> (s: Scalar)
        requires
            r < 4,
            c < 4,
        ensures
            s == self.entry(r as int, c as int),
    {
        self.rows[r][c]
    }
}

/// The transform that moves a point by `(x, y, z)` and leaves a vector as it
/// is.
pub fn translation(x: Scalar, y: Scalar, z: Scalar) -> (m: Mat4)
    ensures
        m == translation_matrix(x, y, z),
{
    let o = Scalar::zero();
    let i = Scalar::one();
    Mat4 { rows: [[i, o, o, x], [o, i, o, y], [o, o, i, z], [o, o, o, i]] }
}

/// The transform that scales each axis by its own factor; a negative factor
/// reflects.
pub fn scaling(x: Scalar, y: Scalar, z: Scalar) -> (m: Mat4)
    ensures
        m == scaling_matrix(x, y, z),
{
    let o = Scalar::zero();
    let i = Scalar::one();
    Mat4 { rows: [[x, o, o, o], [o, y, o, o], [o, o, z, o], [o, o, o, i]] }
}

/// The transform that moves x in proportion to y and z, y in proportion to x
/// and z, and z in proportion to x and y.
pub fn shear(xy: Scalar, xz: Scalar, yx: Scalar, yz: Scalar, zx: Scalar, zy: Scalar) -> (m: Mat4)
    ensures
        m == shear_matrix(xy, xz, yx, yz, zx, zy),
{
    let o = Scalar::zero();
    let i = Scalar::one();
    Mat4 { rows: [[i, xy, xz, o], [yx, i, yz, o], [zx, zy, i, o], [o, o, o, i]] }
}

/// A homogeneous 4-tuple of exact numbers.
pub struct Exact4 {
    pub x: int,
    pub y: int,
    pub z: int,
    pub w: int,
}

impl Exact4 {
    /// Every component multiplied by `k`.
    pub open spec fn scaled(self, k: int) -> Exact4 {
        Exact4 { x: k * self.x, y: k * self.y, z: k * self.z, w: k * self.w }
    }
}

/// The dot product of two tuples, in exact arithmetic.
pub open spec fn dot(a: Exact4, b: Exact4) -> int {
    a.x * b.x + a.y * b.y + a.z * b.z + a.w * b.w
}

impl Point4 {
    /// The numbers that the components stand for.
    pub open spec fn exact(self) -> Exact4 {
        Exact4 { x: self.x.value(), y: self.y.value(), z: self.z.value(), w: self.w.value() }
    }
}

impl Vec4 {
    /// The numbers that the components stand for.
    pub open spec fn exact(self) -> Exact4 {
        Exact4 { x: self.x.value(), y: self.y.value(), z: self.z.value(), w: self.w.value() }
    }
}

impl Mat4 {
    /// Row `r` of the matrix times the tuple `p`, in exact arithmetic.
    pub open spec fn row_times(self, r: int, p: Exact4) -> int {
        self.rows[r][0].value() * p.x + self.rows[r][1].value() * p.y + self.rows[r][2].value()
            * p.z + self.rows[r][3].value() * p.w
    }

    /// The matrix times the tuple `p`, in exact arithmetic. The entries are
    /// counted in units of which `one().value()` make one, so the product of
    /// the identity with `p` is `p.scaled(one().value())`.
    pub open spec fn times(self, p: Exact4) -> Exact4 {
        Exact4 {
            x: self.row_times(0, p),
            y: self.row_times(1, p),
            z: self.row_times(2, p),
            w: self.row_times(3, p),
        }
    }
}

/// The opposite of a vector stands for the opposite numbers, and makes the
/// opposite dot product with every tuple: of a vector and its opposite, one
/// at least does not point away from any given direction.
pub proof fn lemma_negated_vector(v: Vec4, e: Exact4)
    ensures
        v.negated().exact() == v.exact().scaled(-1),
        dot(v.negated().exact(), e) == -dot(v.exact(), e),
        v.negated().negated() == v,
{
    assert((-v.x.value()) * e.x + (-v.y.value()) * e.y + (-v.z.value()) * e.z + (-v.w.value())
        * e.w == -(v.x.value() * e.x + v.y.value() * e.y + v.z.value() * e.z + v.w.value()
        * e.w)) by (nonlinear_arith);
}

/// The identity leaves every tuple as it is.
pub proof fn lemma_identity_times(p: Exact4)
    ensures
        identity_matrix().times(p) == p.scaled(one().value()),
{
    let u = one().value();
    assert(zero().value() == 0);
    assert(identity_matrix().row_times(0, p) == u * p.x) by (nonlinear_arith)
        requires
            identity_matrix().row_times(0, p) == u * p.x + 0 * p.y + 0 * p.z + 0 * p.w,
    ;
    assert(identity_matrix().row_times(1, p) == u * p.y) by (nonlinear_arith)
        requires
            identity_matrix().row_times(1, p) == 0 * p.x + u * p.y + 0 * p.z + 0 * p.w,
    ;
    assert(identity_matrix().row_times(2, p) == u * p.z) by (nonlinear_arith)
        requires
            identity_matrix().row_times(2, p) == 0 * p.x + 0 * p.y + u * p.z + 0 * p.w,
    ;
    assert(identity_matrix().row_times(3, p) == u * p.w) by (nonlinear_arith)
        requires
            identity_matrix().row_times(3, p) == 0 * p.x + 0 * p.y + 0 * p.z + u * p.w,
    ;
}

/// A translation adds its offsets as often as the last component says, and
/// leaves the last component as it is. So it moves a point, whose last
/// component is one, by its offsets, and leaves a vector, whose last
/// component is zero, where it is.
pub proof fn lemma_translation_times(x: Scalar, y: Scalar, z: Scalar, p: Exact4)
    ensures
        translation_matrix(x, y, z).times(p) == (Exact4 {
            x: one().value() * p.x + x.value() * p.w,
            y: one().value() * p.y + y.value() * p.w,
            z: one().value() * p.z + z.value() * p.w,
            w: one().value() * p.w,
        }),
        p.w == one().value() ==> translation_matrix(x, y, z).times(p) == (Exact4 {
            x: p.x + x.value(),
            y: p.y + y.value(),
            z: p.z + z.value(),
            w: p.w,
        }).scaled(one().value()),
        p.w == 0 ==> translation_matrix(x, y, z).times(p) == p.scaled(one().value()),
{
    let u = one().value();
    let m = translation_matrix(x, y, z);
    assert(zero().value() == 0);
    assert(m.row_times(0, p) == u * p.x + x.value() * p.w) by (nonlinear_arith)
        requires
            m.row_times(0, p) == u * p.x + 0 * p.y + 0 * p.z + x.value() * p.w,
    ;
    assert(m.row_times(1, p) == u * p.y + y.value() * p.w) by (nonlinear_arith)
        requires
            m.row_times(1, p) == 0 * p.x + u * p.y + 0 * p.z + y.value() * p.w,
    ;
    assert(m.row_times(2, p) == u * p.z + z.value() * p.w) by (nonlinear_arith)
        requires
            m.row_times(2, p) == 0 * p.x + 0 * p.y + u * p.z + z.value() * p.w,
    ;
    assert(m.row_times(3, p) == u * p.w) by (nonlinear_arith)
        requires
            m.row_times(3, p) == 0 * p.x + 0 * p.y + 0 * p.z + u * p.w,
    ;
    if p.w == u {
        assert(u * p.x + x.value() * u == u * (p.x + x.value())) by (nonlinear_arith);
        assert(u * p.y + y.value() * u == u * (p.y + y.value())) by (nonlinear_arith);
        assert(u * p.z + z.value() * u == u * (p.z + z.value())) by (nonlinear_arith);
    }
    if p.w == 0 {
        assert(x.value() * 0 == 0 && y.value() * 0 == 0 && z.value() * 0 == 0);
    }
}

/// A scaling multiplies each of the first three components by its own
/// factor and leaves the last as it is.
pub proof fn lemma_scaling_times(x: Scalar, y: Scalar, z: Scalar, p: Exact4)
    ensures
        scaling_matrix(x, y, z).times(p) == (Exact4 {
            x: x.value() * p.x,
            y: y.value() * p.y,
            z: z.value() * p.z,
            w: one().value() * p.w,
        }),
{
    let u = one().value();
    let m = scaling_matrix(x, y, z);
    assert(zero().value() == 0);
    assert(m.row_times(0, p) == x.value() * p.x) by (nonlinear_arith)
        requires
            m.row_times(0, p) == x.value() * p.x + 0 * p.y + 0 * p.z + 0 * p.w,
    ;
    assert(m.row_times(1, p) == y.value() * p.y) by (nonlinear_arith)
        requires
            m.row_times(1, p) == 0 * p.x + y.value() * p.y + 0 * p.z + 0 * p.w,
    ;
    assert(m.row_times(2, p) == z.value() * p.z) by (nonlinear_arith)
        requires
            m.row_times(2, p) == 0 * p.x + 0 * p.y + z.value() * p.z + 0 * p.w,
    ;
    assert(m.row_times(3, p) == u * p.w) by (nonlinear_arith)
        requires
            m.row_times(3, p) == 0 * p.x + 0 * p.y + 0 * p.z + u * p.w,
    ;
}

/// A shear adds to each of the first three components the two others in the
/// given proportions, and leaves the last as it is.
pub proof fn lemma_shear_times(
    xy: Scalar,
    xz: Scalar,
    yx: Scalar,
    yz: Scalar,
    zx: Scalar,
    zy: Scalar,
    p: Exact4,
)
    ensures
        shear_matrix(xy, xz, yx, yz, zx, zy).times(p) == (Exact4 {
            x: one().value() * p.x + xy.value() * p.y + xz.value() * p.z,
            y: yx.value() * p.x + one().value() * p.y + yz.value() * p.z,
            z: zx.value() * p.x + zy.value() * p.y + one().value() * p.z,
            w: one().value() * p.w,
        }),
{
    let u = one().value();
    let m = shear_matrix(xy, xz, yx, yz, zx, zy);
    assert(zero().value() == 0);
    assert(m.row_times(0, p) == u * p.x + xy.value() * p.y + xz.value() * p.z)
        by (nonlinear_arith)
        requires
            m.row_times(0, p) == u * p.x + xy.value() * p.y + xz.value() * p.z + 0 * p.w,
    ;
    assert(m.row_times(1, p) == yx.value() * p.x + u * p.y + yz.value() * p.z)
        by (nonlinear_arith)
        requires
            m.row_times(1, p) == yx.value() * p.x + u * p.y + yz.value() * p.z + 0 * p.w,
    ;
    assert(m.row_times(2, p) == zx.value() * p.x + zy.value() * p.y + u * p.z)
        by (nonlinear_arith)
        requires
            m.row_times(2, p) == zx.value() * p.x + zy.value() * p.y + u * p.z + 0 * p.w,
    ;
    assert(m.row_times(3, p) == u * p.w) by (nonlinear_arith)
        requires
            m.row_times(3, p) == 0 * p.x + 0 * p.y + 0 * p.z + u * p.w,
    ;
}

/// Moving by some offsets and then by their opposites brings every tuple
/// back to where it was: the translation by the negated offsets is the
/// inverse of the translation.
pub proof fn lemma_translation_round_trip(x: Scalar, y: Scalar, z: Scalar, p: Exact4)
    ensures
        translation_matrix(x.negated(), y.negated(), z.negated()).times(
            translation_matrix(x, y, z).times(p),
        ) == p.scaled(one().value() * one().value()),
{
    let u = one().value();
    let q = translation_matrix(x, y, z).times(p);
    lemma_translation_times(x, y, z, p);
    lemma_translation_times(x.negated(), y.negated(), z.negated(), q);
    assert(u * (u * p.x + x.value() * p.w) + (-x.value()) * (u * p.w) == (u * u) * p.x)
        by (nonlinear_arith);
    assert(u * (u * p.y + y.value() * p.w) + (-y.value()) * (u * p.w) == (u * u) * p.y)
        by (nonlinear_arith);
    assert(u * (u * p.z + z.value() * p.w) + (-z.value()) * (u * p.w) == (u * u) * p.z)
        by (nonlinear_arith);
    assert(u * (u * p.w) == (u * u) * p.w) by (nonlinear_arith);
}

impl Color {
    pub fn new(r: Scalar, g: Scalar, b: Scalar) -> (c: Color)
        ensures
            c == (Color { rgb: [r, g, b] }),
    {
        Color { rgb: [r, g, b] }
    }

    pub fn r(&self) -> (s: Scalar)
        ensures
            s == self.rgb[0],
    {
        self.rgb[0]
    }

    pub fn g(&self) -> (s: Scalar)
        ensures
            s == self.rgb[1],
    {
        self.rgb[1]
    }

    pub fn b(&self) -> (s: Scalar)
        ensures
            s == self.rgb[2],
    {
        self.rgb[2]
    }

    pub fn as_array(&self) -> (a: [Scalar; 3])
        ensures
            a == self.rgb,
    {
        self.rgb
    }

    pub fn red() -> (c: Color)
        ensures
            c == (Color { rgb: [one(), zero(), zero()] }),
    {
        Color::new(Scalar::one(), Scalar::zero(), Scalar::zero())
    }

    pub fn green() -> (c: Color)
        ensures
            c == (Color { rgb: [zero(), one(), zero()] }),
    {
        Color::new(Scalar::zero(), Scalar::one(), Scalar::zero())
    }

    pub fn blue() -> (c: Color)
        ensures
            c == (Color { rgb: [zero(), zero(), one()] }),
    {
        Color::new(Scalar::zero(), Scalar::zero(), Scalar::one())
    }
}

impl Default for Color {
    /// Black.
    fn default() -> (c: Color)
        ensures
            c == (Color { rgb: [zero(), zero(), zero()] }),
    {
        Color::new(Scalar::zero(), Scalar::zero(), Scalar::zero())
    }
}

} // verus!
