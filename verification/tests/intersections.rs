use raytracer::intersection::hit;
use raytracer::intersection::intersect;
use raytracer::intersection::Intersection;
use raytracer::intersection::Intersections;
use raytracer::intersection::Roots;
use raytracer::objects::Sphere;
use raytracer::objects::SphereBuilder;
use raytracer::scalar::Scalar;

fn s(x: f32) -> Scalar {
    Scalar::from_bits(x.to_bits())
}

fn distances(xs: &Intersections) -> Vec<f32> {
    xs.as_slice().iter().map(|i| f32::from_bits(i.t.to_bits())).collect()
}

#[test]
fn new_intersection() {
    let sphere = SphereBuilder::new().create();
    let inter = Intersection::new(s(3.5), &sphere);
    assert_eq!(&sphere, inter.obj);
}

#[test]
fn new_intersection_keeps_distance() {
    let sphere = SphereBuilder::new().create();
    let inter = Intersection::new(s(3.5), &sphere);
    assert_eq!(f32::from_bits(inter.t.to_bits()), 3.5);
}

#[test]
fn intersection_comparison() {
    let sphere = SphereBuilder::new().create();
    let i1 = Intersection::new(s(1.0), &sphere);
    let i2 = Intersection::new(s(-5.0), &sphere);
    assert!(i1 > i2);
}

#[test]
fn intersections_compare_by_distance_alone() {
    let mut sb = SphereBuilder::new();
    let a = sb.create();
    let b = sb.create();
    let near = Intersection::new(s(-5.0), &a);
    let far = Intersection::new(s(1.0), &b);
    let tie = Intersection::new(s(1.0), &a);
    assert!(near < far);
    assert!(near <= far);
    assert!(!(far < near));
    assert!(far >= tie && far <= tie);
    assert!(!(far < tie) && !(far > tie));
    assert_eq!(far.partial_cmp(&tie), Some(std::cmp::Ordering::Equal));
    assert_eq!(near.partial_cmp(&far), Some(std::cmp::Ordering::Less));
    assert_eq!(far.partial_cmp(&near), Some(std::cmp::Ordering::Greater));
    let zero = Intersection::new(s(0.0), &a);
    let minus_zero = Intersection::new(s(-0.0), &a);
    assert_eq!(zero.partial_cmp(&minus_zero), Some(std::cmp::Ordering::Equal));
}

#[test]
fn intersection_order() {
    let sphere = SphereBuilder::new().create();
    let i0 = Intersection::new(s(5.0), &sphere);
    let i1 = Intersection::new(s(7.0), &sphere);
    let i2 = Intersection::new(s(-3.5), &sphere);
    let i3 = Intersection::new(s(2.0), &sphere);

    let mut intersections = Intersections::new();
    intersections.add(i1);
    intersections.add(i0);
    intersections.add(i2);
    intersections.add(i3);

    assert_eq!(intersections.len(), 4 as usize);
    assert_eq!(*intersections.get(0), i2);
    assert_eq!(*intersections.get(1), i3);
    assert_eq!(*intersections.get(2), i0);
    assert_eq!(*intersections.get(3), i1);
}

#[test]
fn test_ray_hit() {
    let sphere = SphereBuilder::new().create();
    let i1 = Intersection::new(s(1.0), &sphere);
    let i2 = Intersection::new(s(2.0), &sphere);
    let mut inters = Intersections::new();
    inters.add(i1);
    inters.add(i2);
    assert_eq!(Some(&i1), hit(&inters));
}

#[test]
fn test_ray_hit_with_negatives() {
    let sphere = SphereBuilder::new().create();
    let i1 = Intersection::new(s(-1.0), &sphere);
    let i2 = Intersection::new(s(0.1), &sphere);
    let mut inters = Intersections::new();
    inters.add(i1);
    inters.add(i2);
    assert_eq!(Some(&i2), hit(&inters));
}

#[test]
fn test_no_ray_hits() {
    let sphere = SphereBuilder::new().create();
    let i1 = Intersection::new(s(-1.0), &sphere);
    let i2 = Intersection::new(s(-0.1), &sphere);
    let mut inters = Intersections::new();
    inters.add(i1);
    inters.add(i2);
    assert_eq!(None, hit(&inters));
}

#[test]
fn test_nearest_hit() {
    let sphere = SphereBuilder::new().create();
    let i1 = Intersection::new(s(5.0), &sphere);
    let i2 = Intersection::new(s(7.0), &sphere);
    let i3 = Intersection::new(s(-3.0), &sphere);
    let i4 = Intersection::new(s(2.0), &sphere);
    let mut inters = Intersections::new();
    inters.add(i1);
    inters.add(i2);
    inters.add(i3);
    inters.add(i4);
    assert_eq!(Some(&i4), hit(&inters));
}

#[test]
fn empty_collection() {
    let xs = Intersections::new();
    assert_eq!(xs.len(), 0);
    assert!(xs.is_empty());
    assert!(xs.as_slice().is_empty());
    assert_eq!(None, hit(&xs));
}

#[test]
fn hit_passes_over_zero() {
    let sphere = SphereBuilder::new().create();
    let mut xs = Intersections::new();
    xs.add(Intersection::new(s(0.0), &sphere));
    xs.add(Intersection::new(s(-0.0), &sphere));
    assert_eq!(None, hit(&xs));
    xs.add(Intersection::new(s(1.0e-45), &sphere));
    assert_eq!(f32::from_bits(hit(&xs).unwrap().t.to_bits()), 1.0e-45);
}

#[test]
fn insertion_is_ascending_whatever_the_order() {
    let sphere = SphereBuilder::new().create();
    let values = [3.0f32, -1.0, 7.5, 0.0, -0.0, 2.0, 2.0, -100.0, 1.0e-3, 6.0];
    let mut expected = values.to_vec();
    expected.sort_by(|a, b| a.partial_cmp(b).unwrap());
    for rotation in 0..values.len() {
        let mut xs = Intersections::new();
        for k in 0..values.len() {
            let v = values[(k + rotation) % values.len()];
            xs.add(Intersection::new(s(v), &sphere));
        }
        assert_eq!(xs.len(), values.len());
        assert_eq!(distances(&xs), expected);
    }
    let mut xs = Intersections::new();
    for v in values.iter().rev() {
        xs.add(Intersection::new(s(*v), &sphere));
    }
    assert_eq!(distances(&xs), expected);
}

#[test]
fn ties_keep_insertion_order() {
    let mut sb = SphereBuilder::new();
    let a = sb.create();
    let b = sb.create();
    let c = sb.create();
    let mut xs = Intersections::new();
    xs.add(Intersection::new(s(2.0), &a));
    xs.add(Intersection::new(s(1.0), &c));
    xs.add(Intersection::new(s(2.0), &b));
    xs.add(Intersection::new(s(2.0), &c));
    let ids: Vec<u32> = xs.as_slice().iter().map(|i| i.obj.id()).collect();
    assert_eq!(ids, vec![c.id(), a.id(), b.id(), c.id()]);
    assert_eq!(distances(&xs), vec![1.0, 2.0, 2.0, 2.0]);
}

fn found(discriminant: f32, t1: f32, t2: f32) -> Roots {
    Roots { discriminant: s(discriminant), t1: s(t1), t2: s(t2) }
}

#[test]
fn intersect_below_zero_misses() {
    let sphere = Sphere::default();
    assert!(intersect(&found(-4.0, f32::NAN, f32::NAN), &sphere).is_none());
    assert!(intersect(&found(-1.0e-45, 1.0, 2.0), &sphere).is_none());
    assert!(intersect(&found(f32::NEG_INFINITY, 1.0, 2.0), &sphere).is_none());
}

#[test]
fn intersect_at_zero_keeps_both_equal_roots() {
    let sphere = SphereBuilder::new().create();
    let xs = intersect(&found(0.0, 5.0, 5.0), &sphere).unwrap();
    assert_eq!(xs.len(), 2);
    assert_eq!(distances(&xs), vec![5.0, 5.0]);
    let xs = intersect(&found(-0.0, 5.0, 5.0), &sphere).unwrap();
    assert_eq!(distances(&xs), vec![5.0, 5.0]);
}

#[test]
fn intersect_orders_the_roots() {
    let sphere = SphereBuilder::new().create();
    let xs = intersect(&found(4.0, 6.0, 4.0), &sphere).unwrap();
    assert_eq!(distances(&xs), vec![4.0, 6.0]);
    let xs = intersect(&found(4.0, 4.0, 6.0), &sphere).unwrap();
    assert_eq!(distances(&xs), vec![4.0, 6.0]);
    let xs = intersect(&found(4.0, -1.0, 1.0), &sphere).unwrap();
    assert_eq!(distances(&xs), vec![-1.0, 1.0]);
    assert_eq!(xs.get(0).obj, &sphere);
    assert_eq!(xs.get(1).obj, &sphere);
}

#[test]
fn intersect_keeps_first_root_first_on_tie() {
    let sphere = SphereBuilder::new().create();
    let xs = intersect(&found(0.0, -0.0, 0.0), &sphere).unwrap();
    assert_eq!(xs.get(0).t.to_bits(), (-0.0f32).to_bits());
    assert_eq!(xs.get(1).t.to_bits(), 0.0f32.to_bits());
    let xs = intersect(&found(0.0, 0.0, -0.0), &sphere).unwrap();
    assert_eq!(xs.get(0).t.to_bits(), 0.0f32.to_bits());
    assert_eq!(xs.get(1).t.to_bits(), (-0.0f32).to_bits());
}

#[test]
fn roots_are_admissible_when_finite_or_unused() {
    assert!(found(4.0, 4.0, 6.0).is_admissible());
    assert!(found(0.0, 5.0, 5.0).is_admissible());
    assert!(found(-1.0, f32::NAN, f32::NAN).is_admissible());
    assert!(found(-1.0, f32::INFINITY, 0.0).is_admissible());
    assert!(!found(0.0, f32::NAN, f32::NAN).is_admissible());
    assert!(!found(4.0, f32::NEG_INFINITY, f32::INFINITY).is_admissible());
    assert!(!found(4.0, 1.0, f32::INFINITY).is_admissible());
    assert!(!found(f32::NAN, f32::NAN, f32::NAN).is_admissible());
    assert!(found(f32::NAN, 1.0, 2.0).is_admissible());
}
