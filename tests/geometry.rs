use raytracer::aabb::Aabb;
use raytracer::bvh::BvhNode;
use raytracer::hittable::Hittable;
use raytracer::hittable_list::HittableList;
use raytracer::interval::Interval;
use raytracer::quad::Quad;
use raytracer::ray::Ray;
use raytracer::triangle::Triangle;
use raytracer::vec3::Vec3;

fn v(x: i64, y: i64, z: i64) -> Vec3 {
    Vec3::new(x, y, z)
}

fn unit_box() -> Aabb {
    Aabb::new(Interval::new(0, 10), Interval::new(0, 10), Interval::new(0, 10))
}

#[test]
fn interval_operations() {
    let a = Interval::new(2, 8);
    assert_eq!(a.size(), 6);
    assert!(a.contains(2) && a.contains(8) && !a.contains(9));
    assert!(!a.surrounds(2) && a.surrounds(3));
    assert_eq!(a.clamp(-5), 2);
    assert_eq!(a.clamp(50), 8);
    assert_eq!(a.clamp(5), 5);
    let e = a.expand(4);
    assert_eq!((e.min, e.max), (0, 10));
    let u = Interval::two_interval(&a, &Interval::new(-1, 3));
    assert_eq!((u.min, u.max), (-1, 8));
    assert!(!Interval::_empty().contains(0));
    assert!(Interval::universe().contains(i64::MIN));
}

#[test]
fn aabb_pads_thin_axes() {
    let b = Aabb::two_point(&v(5, 0, 3), &v(1, 4, 3));
    assert_eq!((b.x.min, b.x.max), (1, 5));
    assert_eq!((b.y.min, b.y.max), (0, 4));
    assert_eq!((b.z.min, b.z.max), (2, 4));
    let z = Aabb::zero();
    assert_eq!((z.x.min, z.x.max), (0, 0));
}

#[test]
fn aabb_longest_axis_prefers_later_on_ties() {
    let b = Aabb::new(Interval::new(0, 10), Interval::new(0, 10), Interval::new(0, 4));
    assert_eq!(b.longest_axis(), 1);
    let c = Aabb::new(Interval::new(0, 10), Interval::new(0, 3), Interval::new(0, 10));
    assert_eq!(c.longest_axis(), 2);
    let d = Aabb::new(Interval::new(0, 11), Interval::new(0, 3), Interval::new(0, 10));
    assert_eq!(d.longest_axis(), 0);
}

#[test]
fn aabb_hit_from_outside() {
    // Enters at t = 5, leaves at t = 15.
    let r = Ray::new(&v(-5, 5, 5), &v(1, 0, 0), 0);
    assert!(unit_box().hit(&r, Interval::new(0, 100)));
    assert!(unit_box().hit(&r, Interval::new(14, 100)));
    assert!(!unit_box().hit(&r, Interval::new(15, 100)));
    assert!(!unit_box().hit(&r, Interval::new(0, 5)));
    assert!(unit_box().hit(&r, Interval::new(0, 6)));
}

#[test]
fn aabb_hit_from_inside_and_behind() {
    let inside = Ray::new(&v(5, 5, 5), &v(0, -1, 2), 0);
    assert!(unit_box().hit(&inside, Interval::new(0, 100)));
    let away = Ray::new(&v(20, 5, 5), &v(1, 0, 0), 0);
    assert!(!unit_box().hit(&away, Interval::new(0, 100)));
}

#[test]
fn aabb_hit_tangent_and_parallel() {
    // Runs along the face y = 10: inside the closed slab.
    let along = Ray::new(&v(-5, 10, 5), &v(1, 0, 0), 0);
    assert!(unit_box().hit(&along, Interval::new(0, 100)));
    // Parallel to the y slab but above it.
    let above = Ray::new(&v(-5, 11, 5), &v(1, 0, 0), 0);
    assert!(!unit_box().hit(&above, Interval::new(0, 100)));
    // Touches only the edge x = 10, y = 10 at t = 5.
    let corner = Ray::new(&v(5, 15, 5), &v(1, -1, 0), 0);
    assert!(!unit_box().hit(&corner, Interval::new(0, 100)));
}

#[test]
fn aabb_add_moves_box() {
    let b = raytracer::aabb::add(&unit_box(), &v(1, -2, 3));
    assert_eq!((b.x.min, b.x.max), (1, 11));
    assert_eq!((b.y.min, b.y.max), (-2, 8));
    assert_eq!((b.z.min, b.z.max), (3, 13));
}

fn floor_quad() -> Quad {
    Quad::new(&v(0, 0, 0), &v(10, 0, 0), &v(0, 0, 10), 7)
}

#[test]
fn quad_centroid_hits() {
    let q = floor_quad();
    let r = Ray::new(&v(5, 10, 5), &v(0, -1, 0), 0);
    let h = q.hit(&r, Interval::new(0, 100)).expect("centroid hit");
    assert_eq!(h.t_num * 1, 10 * h.t_den);
    assert_eq!(2 * h.u_num, h.uv_den);
    assert_eq!(2 * h.v_num, h.uv_den);
    assert_eq!(h.mat, 7);
    // n = u x v points down (0, -100, 0): the ray meets its back side.
    assert!(!h.front_face);
    assert_eq!((h.normal.x, h.normal.y, h.normal.z), (0, 100, 0));
    assert_eq!(h.p_num.x, 5 * h.t_den);
}

#[test]
fn quad_outside_points_miss() {
    let q = floor_quad();
    let outside = Ray::new(&v(11, 10, 5), &v(0, -1, 0), 0);
    assert!(q.hit(&outside, Interval::new(0, 100)).is_none());
    let edge = Ray::new(&v(10, 10, 10), &v(0, -1, 0), 0);
    assert!(q.hit(&edge, Interval::new(0, 100)).is_some());
    let parallel = Ray::new(&v(5, 10, 5), &v(1, 0, 0), 0);
    assert!(q.hit(&parallel, Interval::new(0, 100)).is_none());
    let too_far = Ray::new(&v(5, 10, 5), &v(0, -1, 0), 0);
    assert!(q.hit(&too_far, Interval::new(0, 9)).is_none());
    assert!(q.hit(&too_far, Interval::new(0, 10)).is_none());
    assert!(q.hit(&too_far, Interval::new(10, 20)).is_none());
    assert!(q.hit(&too_far, Interval::new(9, 11)).is_some());
}

#[test]
fn triangle_containment() {
    let t = Triangle::new(&v(0, 0, 0), &v(9, 0, 0), &v(0, 0, 9), 1);
    let centroid = Ray::new(&v(3, 5, 3), &v(0, -1, 0), 0);
    let h = t.hit(&centroid, Interval::new(0, 100)).expect("centroid hit");
    assert_eq!(3 * h.u_num, h.uv_den);
    assert_eq!(3 * h.v_num, h.uv_den);
    let beyond = Ray::new(&v(5, 5, 5), &v(0, -1, 0), 0);
    assert!(t.hit(&beyond, Interval::new(0, 100)).is_none());
}

fn scene(n: i64) -> Vec<Hittable> {
    let mut objs = Vec::new();
    for k in 0..n {
        // Quads at depth z = -k - 2, each a little offset so they overlap.
        let q = Quad::new(&v(-20 + (k % 5), -20, -k - 2), &v(30, 0, 0), &v(0, 30, 0), k as usize);
        objs.push(Hittable::Quad(q));
    }
    objs
}

fn first_t(h: &Option<raytracer::hittable::HitRecord>) -> Option<(i128, i128, usize)> {
    h.as_ref().map(|r| (r.t_num, r.t_den, r.mat))
}

#[test]
fn bvh_matches_linear_search() {
    for n in 1..=50i64 {
        let mut list = HittableList::new();
        for o in scene(n) {
            list.add(o);
        }
        let bvh = BvhNode::new(scene(n));
        for (ox, oy) in [(0, 0), (3, -7), (9, 9), (-19, 5), (50, 50)] {
            let r = Ray::new(&v(ox, oy, 0), &v(0, 0, -1), 0);
            let a = list.hit(&r, Interval::new(0, 1000));
            let b = bvh.hit(&r, Interval::new(0, 1000));
            assert_eq!(first_t(&a).map(|x| x.0 * 1), first_t(&b).map(|x| x.0 * 1), "n = {}", n);
            if let (Some(x), Some(y)) = (&a, &b) {
                assert_eq!(x.mat, y.mat);
                assert_eq!(x.t_num * y.t_den, y.t_num * x.t_den);
            }
        }
    }
}

#[test]
fn list_keeps_nearest_hit() {
    let mut list = HittableList::new();
    for o in scene(4) {
        list.add(o);
    }
    let r = Ray::new(&v(0, 0, 0), &v(0, 0, -1), 0);
    let h = list.hit(&r, Interval::new(0, 1000)).expect("hit");
    assert_eq!(h.mat, 0);
    assert_eq!(h.t_num, 2 * h.t_den);
    let beyond = list.hit(&r, Interval::new(2, 1000)).expect("hit");
    assert_eq!(beyond.mat, 1);
    // The interval is open: the crossing at its lower end is left out.
    let past = list.hit(&r, Interval::new(3, 1000)).expect("hit");
    assert_eq!(past.mat, 2);
    assert!(list.hit(&r, Interval::new(0, 1)).is_none());
    assert!(HittableList::new().hit(&r, Interval::new(0, 1000)).is_none());
}

#[test]
fn cuboid_is_hit_on_its_near_face() {
    let b = raytracer::quad::cuboid(&v(0, 0, 0), &v(10, 10, 10), 3);
    let r = Ray::new(&v(5, 5, 30), &v(0, 0, -1), 0);
    let h = b.hit(&r, Interval::new(0, 1000)).expect("hit");
    assert_eq!(h.t_num, 20 * h.t_den);
    let miss = Ray::new(&v(15, 5, 30), &v(0, 0, -1), 0);
    assert!(b.hit(&miss, Interval::new(0, 1000)).is_none());
}

#[test]
fn bvh_box_test_excludes_grazing_corner_hits() {
    // The ray meets the quad exactly at its corner (10, 10, 10), where it
    // only touches the quad's box: the closed quad test accepts the hit, the
    // strict slab test on the box does not.
    let top = || Hittable::Quad(Quad::new(&v(0, 10, 0), &v(10, 0, 0), &v(0, 0, 10), 0));
    let r = Ray::new(&v(11, 11, 9), &v(-1, -1, 1), 0);
    let mut list = HittableList::new();
    list.add(top());
    assert!(list.hit(&r, Interval::new(0, 100)).is_some());
    let bvh = BvhNode::new(vec![top()]);
    assert!(bvh.hit(&r, Interval::new(0, 100)).is_none());
}
