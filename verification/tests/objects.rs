use raytracer::material::Material;
use raytracer::math::point;
use raytracer::math::translation;
use raytracer::math::vector;
use raytracer::math::Color;
use raytracer::math::Mat4;
use raytracer::objects::Ray;
use raytracer::objects::Sphere;
use raytracer::objects::SphereBuilder;
use raytracer::scalar::Scalar;

fn s(x: f32) -> Scalar {
    Scalar::from_bits(x.to_bits())
}

fn f(x: Scalar) -> f32 {
    f32::from_bits(x.to_bits())
}

#[test]
fn sphere_creation() {
    let mut sb = SphereBuilder::new();
    let s1 = sb.create();
    let s2 = sb.create();
    assert_ne!(s1.id(), s2.id());
}

#[test]
fn sphere_identities_count_up_from_one() {
    let mut sb = SphereBuilder::new();
    let ids: Vec<u32> = (0..5).map(|_| sb.create().id()).collect();
    assert_eq!(ids, vec![1, 2, 3, 4, 5]);
}

#[test]
fn sphere_default_transformation_matrix() {
    let sphere = SphereBuilder::new().create();
    assert_eq!(sphere.get_transformation(), &Mat4::identity());
}

#[test]
fn shpere_translate() {
    let t = translation(s(2.0), s(3.0), s(4.0));
    let sphere = SphereBuilder::new().with_transformation(t).create();
    assert_eq!(&t, sphere.get_transformation());
}

#[test]
fn sphere_default_material() {
    let sphere = SphereBuilder::new().create();
    assert_eq!(sphere.material, Material::default());
}

#[test]
fn builder_forgets_what_it_used() {
    let t = translation(s(2.0), s(3.0), s(4.0));
    let m = Material::default_with_color(Color::red());
    let mut sb = SphereBuilder::new();
    let first = sb.with_material(m).with_transformation(t).create();
    let second = sb.create();
    assert_eq!(first.get_transformation(), &t);
    assert_eq!(first.material, m);
    assert_eq!(second.get_transformation(), &Mat4::identity());
    assert_eq!(second.material, Material::default());
    assert_eq!(first.id(), 1);
    assert_eq!(second.id(), 2);
}

#[test]
fn builder_keeps_the_last_of_each() {
    let t1 = translation(s(1.0), s(0.0), s(0.0));
    let t2 = translation(s(0.0), s(1.0), s(0.0));
    let mut sb = SphereBuilder::new();
    let sphere = sb.with_transformation(t1).with_transformation(t2).create();
    assert_eq!(sphere.get_transformation(), &t2);
}

#[test]
fn default_sphere() {
    let sphere = Sphere::default();
    assert_eq!(sphere.id(), 0);
    assert_eq!(sphere.get_transformation(), &Mat4::identity());
    assert_eq!(sphere.material, Material::default());
}

#[test]
fn set_transformation_replaces_only_the_transform() {
    let mut sphere = SphereBuilder::new().create();
    let before = sphere;
    let t = translation(s(2.0), s(3.0), s(4.0));
    sphere.set_transformation(t);
    assert_eq!(sphere.get_transformation(), &t);
    assert_eq!(sphere.id(), before.id());
    assert_eq!(sphere.material, before.material);
}

#[test]
fn ray_holds_origin_and_direction() {
    let ray = Ray::new(point(s(2.0), s(3.0), s(4.0)), vector(s(1.0), s(0.0), s(0.0)));
    assert_eq!(ray.origin, point(s(2.0), s(3.0), s(4.0)));
    assert_eq!(ray.direction, vector(s(1.0), s(0.0), s(0.0)));
}

#[test]
fn default_material_values() {
    let m = Material::default();
    assert_eq!(m.color, Color::new(s(1.0), s(1.0), s(1.0)));
    assert_eq!(f(m.ambient), 0.1);
    assert_eq!(f(m.diffuse), 0.9);
    assert_eq!(f(m.specular), 0.9);
    assert_eq!(f(m.shininess), 200.0);
}

#[test]
fn material_with_color() {
    let m = Material::default_with_color(Color::new(s(0.0), s(0.9), s(0.0)));
    assert_eq!(m.color, Color::new(s(0.0), s(0.9), s(0.0)));
    assert_eq!(f(m.ambient), 0.1);
    assert_eq!(f(m.diffuse), 0.9);
    assert_eq!(f(m.specular), 0.9);
    assert_eq!(f(m.shininess), 200.0);
}

#[test]
fn material_new_keeps_its_arguments() {
    let c = Color::new(s(0.8), s(1.0), s(0.6));
    let m = Material::new(c, s(0.1), s(0.7), s(0.2), s(200.0));
    assert_eq!(m.color, c);
    assert_eq!(f(m.ambient), 0.1);
    assert_eq!(f(m.diffuse), 0.7);
    assert_eq!(f(m.specular), 0.2);
    assert_eq!(f(m.shininess), 200.0);
}

#[test]
fn color_channels() {
    let c = Color::new(s(0.25), s(0.5), s(0.75));
    assert_eq!(f(c.r()), 0.25);
    assert_eq!(f(c.g()), 0.5);
    assert_eq!(f(c.b()), 0.75);
    assert_eq!(c.as_array(), [s(0.25), s(0.5), s(0.75)]);
}

#[test]
fn named_colors() {
    assert_eq!(Color::red().as_array().map(f), [1.0, 0.0, 0.0]);
    assert_eq!(Color::green().as_array().map(f), [0.0, 1.0, 0.0]);
    assert_eq!(Color::blue().as_array().map(f), [0.0, 0.0, 1.0]);
    assert_eq!(Color::default().as_array().map(f), [0.0, 0.0, 0.0]);
}

#[test]
fn default_materials_are_valid() {
    assert!(Material::default().is_valid());
    assert!(Material::default_with_color(Color::blue()).is_valid());
}

#[test]
fn material_shares_lie_between_zero_and_one() {
    let base = Material::default();
    for share in [0.0f32, -0.0, 0.5, 1.0, 1.0e-45] {
        assert!(Material { ambient: s(share), ..base }.is_valid());
        assert!(Material { diffuse: s(share), ..base }.is_valid());
        assert!(Material { specular: s(share), ..base }.is_valid());
    }
    for share in [-0.1f32, 1.000_000_1, 2.0, f32::INFINITY, f32::NEG_INFINITY, f32::NAN, -1.0e-45]
    {
        assert!(!Material { ambient: s(share), ..base }.is_valid());
        assert!(!Material { diffuse: s(share), ..base }.is_valid());
        assert!(!Material { specular: s(share), ..base }.is_valid());
    }
}

#[test]
fn material_shininess_is_positive() {
    let base = Material::default();
    for shininess in [1.0e-45f32, 0.5, 200.0, f32::MAX, f32::INFINITY] {
        assert!(Material { shininess: s(shininess), ..base }.is_valid());
    }
    for shininess in [0.0f32, -0.0, -1.0, f32::NEG_INFINITY, f32::NAN] {
        assert!(!Material { shininess: s(shininess), ..base }.is_valid());
    }
}

#[test]
fn holds_share_agrees_with_the_numbers() {
    for x in [-1.0f32, -1.0e-45, -0.0, 0.0, 1.0e-45, 0.1, 0.9, 1.0, 1.000_000_1, 200.0] {
        assert_eq!(raytracer::material::holds_share(s(x)), 0.0 <= x && x <= 1.0);
    }
    assert!(!raytracer::material::holds_share(s(f32::NAN)));
}

#[test]
fn builders_can_share_a_range_of_identities() {
    let mut first = SphereBuilder::new();
    let a = first.create();
    let b = first.create();
    assert_eq!(first.next_id(), 3);
    let mut second = SphereBuilder::starting_at(first.next_id());
    let c = second.create();
    assert_eq!((a.id(), b.id(), c.id()), (1, 2, 3));
}

#[test]
fn identities_start_over_after_the_largest() {
    let mut sb = SphereBuilder::starting_at(u32::MAX - 1);
    let ids: Vec<u32> = (0..4).map(|_| sb.create().id()).collect();
    assert_eq!(ids, vec![u32::MAX - 1, u32::MAX, 0, 1]);
}
