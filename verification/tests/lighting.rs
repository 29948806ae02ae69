use raytracer::light::PointLight;
use raytracer::light::Terms;
use raytracer::material::Material;
use raytracer::math::point;
use raytracer::math::Color;
use raytracer::scalar::Scalar;

type Vector = nalgebra::Vector4<f32>;
type Point = nalgebra::Point4<f32>;
type Rgb = nalgebra::Vector3<f32>;

fn s(x: f32) -> Scalar {
    Scalar::from_bits(x.to_bits())
}

fn f(x: Scalar) -> f32 {
    f32::from_bits(x.to_bits())
}

fn rgb(c: &Color) -> Rgb {
    Rgb::new(f(c.r()), f(c.g()), f(c.b()))
}

fn reflection(ray: &Vector, normal: &Vector) -> Vector {
    ray - normal * 2.0 * ray.dot(normal)
}

/// The Phong model, with the library deciding which terms count.
fn illuminate(
    light: &PointLight,
    material: &Material,
    position: &Point,
    eyev: &Vector,
    normalv: &Vector,
) -> Rgb {
    let intensity = rgb(&light.intensity);
    let effective_color = rgb(&material.color).component_mul(&intensity);
    let at = Point::new(
        f(light.position.x),
        f(light.position.y),
        f(light.position.z),
        f(light.position.w),
    );
    let lightv = (at - position).normalize();
    let ambient = effective_color * f(material.ambient);
    let mut diffuse = Rgb::new(0.0, 0.0, 0.0);
    let mut specular = Rgb::new(0.0, 0.0, 0.0);
    let light_dot_normal = lightv.dot(normalv);
    let reflect_dot_eye = reflection(&-lightv, normalv).dot(eyev);
    let terms = Terms::of(s(light_dot_normal), s(reflect_dot_eye));
    if terms != Terms::Ambient {
        diffuse = effective_color * f(material.diffuse) * light_dot_normal;
    }
    if terms == Terms::Specular {
        specular = intensity * f(material.specular) * reflect_dot_eye.powf(f(material.shininess));
    }
    ambient + diffuse + specular
}

fn white_light(x: f32, y: f32, z: f32) -> PointLight {
    PointLight::new(point(s(x), s(y), s(z)), Color::new(s(1.0), s(1.0), s(1.0)))
}

#[test]
fn lighting_light_eye_surface() {
    let m = Material::default();
    let position = Point::new(0.0, 0.0, 0.0, 1.0);

    let eyev = Vector::new(0.0, 0.0, -1.0, 0.0);
    let normalv = Vector::new(0.0, 0.0, -1.0, 0.0);
    let light = white_light(0.0, 0.0, -10.0);
    let result = illuminate(&light, &m, &position, &eyev, &normalv);
    assert_eq!(result, Rgb::new(1.9, 1.9, 1.9));
}

#[test]
fn lighting_light_eye_45offset_surface() {
    let m = Material::default();
    let position = Point::new(0.0, 0.0, 0.0, 1.0);

    let sq = 2.0f32.sqrt() / 2.0;
    let eyev = Vector::new(0.0, sq, -sq, 0.0);
    let normalv = Vector::new(0.0, 0.0, -1.0, 0.0);
    let light = white_light(0.0, 0.0, -10.0);
    let result = illuminate(&light, &m, &position, &eyev, &normalv);
    assert_eq!(result, Rgb::new(1.0, 1.0, 1.0));
}

#[test]
fn lighting_eye_surface_light() {
    let m = Material::default();
    let position = Point::new(0.0, 0.0, 0.0, 1.0);

    let eyev = Vector::new(0.0, 0.0, -1.0, 0.0);
    let normalv = Vector::new(0.0, 0.0, -1.0, 0.0);
    let light = white_light(0.0, 0.0, 10.0);
    let result = illuminate(&light, &m, &position, &eyev, &normalv);
    assert_eq!(result, Rgb::new(0.1, 0.1, 0.1));
}

#[test]
fn light_behind_the_surface_leaves_the_ambient_term() {
    let m = Material::default();
    let position = Point::new(0.0, 0.0, 0.0, 1.0);
    let normalv = Vector::new(0.0, 0.0, -1.0, 0.0);
    let light = white_light(0.0, 0.0, 10.0);
    for eyev in [
        Vector::new(0.0, 0.0, -1.0, 0.0),
        Vector::new(0.0, 0.0, 1.0, 0.0),
        Vector::new(0.0, 1.0, 0.0, 0.0),
    ] {
        let result = illuminate(&light, &m, &position, &eyev, &normalv);
        assert_eq!(result, Rgb::new(0.1, 0.1, 0.1));
    }
}

#[test]
fn colour_of_the_surface_tints_the_light() {
    let m = Material::default_with_color(Color::new(s(0.0), s(0.5), s(1.0)));
    let position = Point::new(0.0, 0.0, 0.0, 1.0);
    let eyev = Vector::new(0.0, 1.0, 0.0, 0.0);
    let normalv = Vector::new(0.0, 0.0, -1.0, 0.0);
    let light = white_light(0.0, 0.0, -10.0);
    let result = illuminate(&light, &m, &position, &eyev, &normalv);
    assert_eq!(result, Rgb::new(0.0, 0.5 * 0.1 + 0.5 * 0.9, 0.1 + 0.9));
}
