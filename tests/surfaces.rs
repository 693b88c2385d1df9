use raytracer::bvh::BvhNode;
use raytracer::camera::{ray_color_step, shade_specular, PathStep};
use raytracer::quad::Quad;
use raytracer::color::{Color, COLOR_ONE};
use raytracer::hittable::Hittable;
use raytracer::hittable_list::HittableList;
use raytracer::interval::Interval;
use raytracer::medium::ConstantMedium;
use raytracer::material::{Dielectric, DiffuseLight, Isotropic, Lambertian, Material, Metal};
use raytracer::ray::Ray;
use raytracer::sphere::Sphere;
use raytracer::texture::{CheckerTexture, Texture};
use raytracer::vec3::Vec3;

fn v(x: i64, y: i64, z: i64) -> Vec3 {
    Vec3::new(x, y, z)
}

#[test]
fn sphere_entry_distance() {
    let s = Sphere::new(&v(0, 0, -10), 3, 2);
    let r = Ray::new(&v(0, 0, 0), &v(0, 0, -1), 0);
    let h = s.hit(&r, Interval::new(0, 100)).expect("hit");
    assert_eq!((h.t_num, h.t_den), (7, 1));
    assert_eq!(h.mat, 2);
    assert!(h.front_face);
    // Aimed with the full offset to the center: t = (10 - 3) / 10.
    let aimed = Ray::new(&v(0, 0, 0), &v(0, 0, -10), 0);
    let h = s.hit(&aimed, Interval::new(0, 100)).expect("hit");
    assert_eq!((h.t_num, h.t_den), (70, 100));
}

#[test]
fn sphere_miss_and_inside() {
    let s = Sphere::new(&v(0, 0, -10), 3, 0);
    let wide = Ray::new(&v(5, 0, 0), &v(0, 0, -1), 0);
    assert!(s.hit(&wide, Interval::new(0, 100)).is_none());
    let inside = Ray::new(&v(0, 0, -10), &v(0, 0, -1), 0);
    let h = s.hit(&inside, Interval::new(0, 100)).expect("exit hit");
    assert_eq!((h.t_num, h.t_den), (3, 1));
    assert!(!h.front_face);
    let behind = Ray::new(&v(0, 0, 0), &v(0, 0, 1), 0);
    assert!(s.hit(&behind, Interval::new(0, 100)).is_none());
    // The interval is open: a root at its end does not count.
    assert!(s.hit(&r_to(-1), Interval::new(0, 7)).is_none());
    assert!(s.hit(&r_to(-1), Interval::new(0, 8)).is_some());
}

fn r_to(dz: i64) -> Ray {
    Ray::new(&v(0, 0, 0), &v(0, 0, dz), 0)
}

#[test]
fn sphere_in_a_list() {
    let mut list = HittableList::new();
    list.add(Hittable::Sphere(Sphere::new(&v(0, 0, -10), 3, 0)));
    list.add(Hittable::Sphere(Sphere::new(&v(0, 0, -5), 1, 1)));
    let h = list.hit(&r_to(-1), Interval::new(0, 100)).expect("hit");
    assert_eq!((h.t_num, h.t_den, h.mat), (4, 1, 1));
}

#[test]
fn material_attenuation_and_emission() {
    let albedo = Color::new(COLOR_ONE / 2, COLOR_ONE / 2, COLOR_ONE / 2);
    let lam = Material::Lambertian(Lambertian::new(albedo));
    assert_eq!(lam.attenuation(0, 0, &v(0, 0, 0)), Some(albedo));
    assert_eq!(lam.emitted(true, 0, 0, &v(0, 0, 0)), Color::black());
    let metal = Material::Metal(Metal::new(albedo, 0));
    assert_eq!(metal.attenuation(0, 0, &v(0, 0, 0)), Some(albedo));
    assert!(metal.skips_pdf() && !lam.skips_pdf());
    let glass = Material::Dielectric(Dielectric::new(COLOR_ONE * 3 / 2));
    assert_eq!(glass.attenuation(0, 0, &v(0, 0, 0)), Some(Color::white()));
    let light = Material::DiffuseLight(DiffuseLight::new(&Color::new(4, 4, 4)));
    assert_eq!(light.attenuation(0, 0, &v(0, 0, 0)), None);
    assert_eq!(light.emitted(true, 0, 0, &v(0, 0, 0)), Color::new(4, 4, 4));
    assert_eq!(light.emitted(false, 0, 0, &v(0, 0, 0)), Color::black());
    let fog = Material::Isotropic(Isotropic::new(&albedo));
    assert_eq!(fog.attenuation(0, 0, &v(0, 0, 0)), Some(albedo));
    let checker = Texture::Checker(CheckerTexture::new_color(1, &albedo, &Color::white()));
    let lam2 = Material::Lambertian(Lambertian::new_tex(checker));
    assert_eq!(lam2.attenuation(0, 0, &v(1, 0, 0)), Some(Color::white()));
}

#[test]
fn schlick_reflectance() {
    // Head-on into glass of index 1.5: r0 = 0.04.
    assert_eq!(Dielectric::reflectance(COLOR_ONE, COLOR_ONE * 3 / 2), 2621);
    // At grazing incidence everything is reflected.
    assert_eq!(Dielectric::reflectance(0, COLOR_ONE * 3 / 2), COLOR_ONE);
    // Matching indices reflect nothing head-on.
    assert_eq!(Dielectric::reflectance(COLOR_ONE, COLOR_ONE), 0);
}

#[test]
fn dielectric_total_internal_reflection() {
    let n = COLOR_ONE * 3 / 2;
    // Grazing from inside glass: always reflected, whatever the draw.
    assert!(Dielectric::reflects(0, n, COLOR_ONE - 1));
    // Head-on between equal indices: never reflected.
    assert!(!Dielectric::reflects(COLOR_ONE, COLOR_ONE, 0));
    // Head-on into glass: reflected only for draws below the reflectance.
    assert!(Dielectric::reflects(COLOR_ONE, n, 100));
    assert!(!Dielectric::reflects(COLOR_ONE, n, 3000));
    let glass = Dielectric::new(n);
    for _ in 0..20 {
        assert!(glass.scatter_reflects(false, 0));
    }
}

#[test]
fn medium_interaction_points() {
    let span = Interval::new(0, 100);
    assert_eq!(ConstantMedium::interaction((2, 1), (6, 1), span, (3, 1)), Some((5, 1)));
    assert_eq!(ConstantMedium::interaction((2, 1), (6, 1), span, (5, 1)), None);
    assert_eq!(ConstantMedium::interaction((-3, 1), (6, 1), span, (1, 2)), Some((1, 2)));
    assert_eq!(ConstantMedium::interaction((2, 1), (6, 1), Interval::new(7, 100), (0, 1)), None);
    assert_eq!(ConstantMedium::interaction((2, 1), (6, 1), Interval::new(0, 4), (1, 1)), Some((3, 1)));
    assert_eq!(ConstantMedium::interaction((2, 1), (6, 1), Interval::new(0, 4), (3, 1)), None);
}

#[test]
fn medium_longer_flights_pass_more_often() {
    let span = Interval::new(0, 100);
    let mut passed = false;
    for k in 0..40i128 {
        let r = ConstantMedium::interaction((2, 1), (6, 1), span, (k, 4));
        if passed {
            assert!(r.is_none());
        }
        passed = r.is_none();
    }
    assert!(passed);
}

#[test]
fn path_step_decisions() {
    let grey = Color::new(COLOR_ONE / 2, COLOR_ONE / 2, COLOR_ONE / 2);
    let materials = vec![
        Material::Lambertian(Lambertian::new(grey)),
        Material::Metal(Metal::new(grey, 0)),
        Material::DiffuseLight(DiffuseLight::new(&Color::new(4, 4, 4))),
    ];
    let p = v(0, 0, 0);
    assert_eq!(ray_color_step(0, None, &materials, 0, 0, &p), PathStep::Black);
    assert_eq!(ray_color_step(3, None, &materials, 0, 0, &p), PathStep::Background);
    let r = Ray::new(&v(5, 5, 10), &v(0, 0, -1), 0);
    for (mat, expected) in [
        (0usize, PathStep::Sampled { attenuation: grey, emitted: Color::black() }),
        (1usize, PathStep::Specular { attenuation: grey, emitted: Color::black() }),
        (2usize, PathStep::Emit(Color::new(4, 4, 4))),
    ] {
        let q = Quad::new(&v(0, 0, 0), &v(10, 0, 0), &v(0, 10, 0), mat);
        let h = q.hit(&r, Interval::new(0, 100));
        assert!(h.is_some());
        assert!(h.unwrap().front_face);
        assert_eq!(ray_color_step(3, h, &materials, 0, 0, &p), expected);
        assert_eq!(ray_color_step(0, h, &materials, 0, 0, &p), PathStep::Black);
    }
    let lit = shade_specular(grey, Color::new(COLOR_ONE, 2 * COLOR_ONE, -4));
    assert_eq!(lit, Color::new(COLOR_ONE / 2, COLOR_ONE, -2));
}

#[test]
fn bvh_box_is_union_of_inputs() {
    let objs = vec![
        Hittable::Sphere(Sphere::new(&v(0, 0, -10), 3, 0)),
        Hittable::Sphere(Sphere::new(&v(20, 5, 0), 1, 0)),
        Hittable::Sphere(Sphere::new(&v(-4, -9, 2), 2, 0)),
    ];
    let node = BvhNode::new(objs);
    let b = node.bounding_box();
    assert_eq!((b.x.min, b.x.max), (-6, 21));
    assert_eq!((b.y.min, b.y.max), (-11, 6));
    assert_eq!((b.z.min, b.z.max), (-13, 4));
}
