use vstd::prelude::*;
use crate::aabb::Aabb;
use crate::hittable::{HitRecord, Hittable, GEOM_LIMIT};
use crate::hittable_list::HittableList;
use crate::interval::Interval;
use crate::quad::ray_in_range;
use crate::ray::Ray;
use crate::aabb::lemma_slab_hit_enclosing;
use crate::arith::frac_le;
use crate::hittable::nearer;
use crate::nearest::{
    boxes_catch_hits, lemma_hit_den_positive, lemma_move_element, lemma_nearer_of_groups, lemma_nearest_transfer,
    lemma_nearest_unique, lemma_same_elements_trans, nearest_in, same_elements, same_outcome, same_t,
};
use crate::hittable_list::{closest, lemma_closest_nearest_in};

verus! {

/// A node of a bounding-volume hierarchy: two children and a box around both.
#[derive(Debug)]
pub struct BvhNode {
    pub left: Box<Hittable>,
    pub right: Box<Hittable>,
    pub bbox: Aabb,
}

/// The key objects are sorted by along `axis`: the lower bound of the box.
pub open spec fn box_key(h: Hittable, axis: int) -> int {
    h.bbox_spec().axis_spec(axis).min as int
}

impl BvhNode {
    /// The hierarchy over `objects`: one object is held by both children,
    /// two by one child each; more are sorted along the longest axis of their
    /// joint box by the lower bound of each box and split at the middle.
    /// Its box is the union of the objects' boxes. Wherever every object's
    /// hit passes the slab test on that object's own box, the hierarchy finds
    /// a hit exactly when a linear search of the objects does, at the same
    /// parameter.
    pub fn new(objects: Vec<Hittable>) -> (r: Self)
        requires
            objects@.len() >= 1,
            forall|i: int| 0 <= i < objects@.len() ==> (#[trigger] objects@[i]).wf(),
        ensures
            Hittable::Bvh(r).wf(),
            union_of(r.bbox, objects@),
            objects@.len() > 2 ==> exists|lo: Seq<Hittable>, hi: Seq<Hittable>|
                #[trigger] split_on_longest_axis(r, lo, hi, objects@),
            forall|ray: Ray, t: Interval|
                ray_in_range(ray) && boxes_catch_hits(objects@, ray, t) ==> nearest_in(
                    #[trigger] Hittable::Bvh(r).hit_spec(ray, t),
                    objects@,
                    ray,
                    t,
                ),
            forall|ray: Ray, t: Interval|
                ray_in_range(ray) && boxes_catch_hits(objects@, ray, t) ==> same_outcome(
                    #[trigger] Hittable::Bvh(r).hit_spec(ray, t),
                    closest(objects@, ray, t),
                ),
    {
        let ghost objs = objects@;
        let node = Self::build(objects);
        assert(objs.len() > 2 ==> exists|lo: Seq<Hittable>, hi: Seq<Hittable>|
            #[trigger] split_on_longest_axis(node, lo, hi, objs));
        assert forall|ray: Ray, t: Interval|
            ray_in_range(ray) && boxes_catch_hits(objs, ray, t) implies same_outcome(
            #[trigger] Hittable::Bvh(node).hit_spec(ray, t),
            closest(objs, ray, t),
        ) by {
            lemma_closest_nearest_in(objs, ray, t);
            lemma_nearest_unique(Hittable::Bvh(node).hit_spec(ray, t), closest(objs, ray, t), objs, ray, t);
        }
        node
    }

    /// The hierarchy over `objects`, with the nearest-hit property that
    /// `new` turns into agreement with the linear search.
    #[verifier::spinoff_prover]
    #[verifier::rlimit(60)]
    fn build(objects: Vec<Hittable>) -> (r: Self)
        requires
            objects@.len() >= 1,
            forall|i: int| 0 <= i < objects@.len() ==> (#[trigger] objects@[i]).wf(),
        ensures
            Hittable::Bvh(r).wf(),
            union_of(r.bbox, objects@),
            objects@.len() > 2 ==> exists|lo: Seq<Hittable>, hi: Seq<Hittable>|
                #[trigger] split_on_longest_axis(r, lo, hi, objects@),
            forall|ray: Ray, t: Interval|
                ray_in_range(ray) && boxes_catch_hits(objects@, ray, t) ==> nearest_in(
                    #[trigger] Hittable::Bvh(r).hit_spec(ray, t),
                    objects@,
                    ray,
                    t,
                ),
        decreases objects@.len(),
    {
        let ghost objs = objects@;
        let mut objects = objects;
        let object_span = objects.len();
        if object_span == 1 {
            let only = objects.pop().unwrap();
            assert(only.wf());
            let bbox = only.bounding_box();
            assert(bbox == Aabb::union_spec(bbox, bbox));
            let node = Self { left: Box::new(only.duplicate()), right: Box::new(only), bbox };
            proof {
                let s = seq![only];
                assert(objs =~= s);
                lemma_union_of_single(only);
                assert(s + s =~= seq![only, only]);
                lemma_same_elements_pair(only);
                assert forall|ray: Ray, t: Interval|
                    ray_in_range(ray) && boxes_catch_hits(objs, ray, t) implies nearest_in(
                    #[trigger] Hittable::Bvh(node).hit_spec(ray, t),
                    objs,
                    ray,
                    t,
                ) by {
                    lemma_nearest_single(only, ray, t);
                    lemma_node_nearest(node, s, s, objs, ray, t);
                }
            }
            return node;
        }
        if object_span == 2 {
            let right = objects.pop().unwrap();
            let left = objects.pop().unwrap();
            let bbox = Aabb::two_aabb(&left.bounding_box(), &right.bounding_box());
            let node = Self { left: Box::new(left), right: Box::new(right), bbox };
            proof {
                let (s1, s2) = (seq![left], seq![right]);
                assert(objs =~= s1 + s2);
                lemma_same_elements_refl(objs);
                lemma_union_of_single(left);
                lemma_union_of_single(right);
                lemma_union_of_join(left.bbox_spec(), right.bbox_spec(), s1, s2, objs);
                assert forall|ray: Ray, t: Interval|
                    ray_in_range(ray) && boxes_catch_hits(objs, ray, t) implies nearest_in(
                    #[trigger] Hittable::Bvh(node).hit_spec(ray, t),
                    objs,
                    ray,
                    t,
                ) by {
                    lemma_nearest_single(left, ray, t);
                    lemma_nearest_single(right, ray, t);
                    lemma_node_nearest(node, s1, s2, objs, ray, t);
                }
            }
            return node;
        }
        let bbox = joint_box(&objects);
        let axis = bbox.longest_axis();
        let ghost loop_box = bbox;
        let mut sorted = sort_by_axis(objects, axis);
        let mid = object_span / 2;
        let ghost all = sorted@;
        let upper = sorted.split_off(mid);
        assert forall|k: int| 0 <= k < sorted@.len() implies (#[trigger] sorted@[k]).wf() by {
            assert(sorted@[k] == all[k]);
        }
        assert forall|k: int| 0 <= k < upper@.len() implies (#[trigger] upper@[k]).wf() by {
            assert(upper@[k] == all[k + mid]);
        }
        let ghost (s1, s2) = (sorted@, upper@);
        assert(s1 + s2 =~= all);
        let left = BvhNode::build(sorted);
        let right = BvhNode::build(upper);
        let bbox = Aabb::two_aabb(&left.bbox, &right.bbox);
        let node = Self { left: Box::new(Hittable::Bvh(left)), right: Box::new(Hittable::Bvh(right)), bbox };
        proof {
            lemma_union_of_join(left.bbox, right.bbox, s1, s2, objs);
            lemma_union_of_unique(node.bbox, loop_box, objs);
            assert forall|i: int, j: int| 0 <= i < s1.len() && 0 <= j < s2.len() implies box_key(
                #[trigger] s1[i],
                axis as int,
            ) <= box_key(#[trigger] s2[j], axis as int) by {
                assert(s1[i] == all[i] && s2[j] == all[j + mid]);
            }
            assert(split_on_longest_axis(node, s1, s2, objs));
            assert forall|ray: Ray, t: Interval|
                ray_in_range(ray) && boxes_catch_hits(objs, ray, t) implies nearest_in(
                #[trigger] Hittable::Bvh(node).hit_spec(ray, t),
                objs,
                ray,
                t,
            ) by {
                lemma_catch_sub(objs, s1, ray, t);
                lemma_catch_sub(objs, s2, ray, t);
                assert(Hittable::Bvh(left).hit_spec(ray, t) == node.left.hit_spec(ray, t));
                lemma_node_nearest(node, s1, s2, objs, ray, t);
            }
        }
        node
    }

    /// The hierarchy over the objects of a list.
    pub fn from_list(list: HittableList) -> (r: Self)
        requires
            list.wf(),
            list.objects@.len() >= 1,
        ensures
            Hittable::Bvh(r).wf(),
            union_of(r.bbox, list.objects@),
            forall|ray: Ray, t: Interval|
                ray_in_range(ray) && boxes_catch_hits(list.objects@, ray, t) ==> same_outcome(
                    #[trigger] Hittable::Bvh(r).hit_spec(ray, t),
                    closest(list.objects@, ray, t),
                ),
    {
        Self::new(list.objects)
    }

    pub fn hit(&self, r: &Ray, ray_t: Interval) -> (res: Option<HitRecord>)
        requires
            Hittable::Bvh(*self).wf(),
            ray_in_range(*r),
        ensures
            res == Hittable::Bvh(*self).hit_spec(*r, ray_t),
            res.is_some() ==> res.unwrap().t_ok(),
        decreases self,
    {
        assert(self.bbox.slab_ready(*r));
        if !self.bbox.hit(r, ray_t) {
            return None;
        }
        let hit_left = self.left.hit(r, ray_t);
        let hit_right = self.right.hit(r, ray_t);
        match (hit_left, hit_right) {
            (Some(a), Some(b)) => {
                if crate::hittable::nearer_first(&a, &b) {
                    Some(a)
                } else {
                    Some(b)
                }
            },
            (Some(a), None) => Some(a),
            (None, b) => b,
        }
    }

    pub fn bounding_box(&self) -> (b: Aabb)
        ensures
            b == self.bbox,
    {
        self.bbox
    }
}

/// Whether `rec` is the hit, within `ray_t`, of one of the primitives that
/// `h` holds.
pub open spec fn primitive_hit(h: Hittable, r: Ray, ray_t: Interval, rec: HitRecord) -> bool
    decreases h,
{
    match h {
        Hittable::Bvh(n) => primitive_hit(*n.left, r, ray_t, rec) || primitive_hit(*n.right, r, ray_t, rec),
        _ => h.hit_spec(r, ray_t) == Some(rec),
    }
}

/// A hierarchy only reports genuine hits: whatever it returns is the hit of
/// one of its primitives within the query interval.
pub proof fn lemma_hierarchy_hit_is_primitive_hit(h: Hittable, r: Ray, ray_t: Interval)
    ensures
        h.hit_spec(r, ray_t) is Some ==> primitive_hit(h, r, ray_t, h.hit_spec(r, ray_t).unwrap()),
    decreases h,
{
    if let Hittable::Bvh(n) = h {
        lemma_hierarchy_hit_is_primitive_hit(*n.left, r, ray_t);
        lemma_hierarchy_hit_is_primitive_hit(*n.right, r, ray_t);
    }
}

/// Whether `bx` is the union of the boxes of `objs`: it encloses each of them,
/// and each of its bounds is the bound of one of them.
pub open spec fn union_of(bx: Aabb, objs: Seq<Hittable>) -> bool {
    &&& forall|i: int| 0 <= i < objs.len() ==> bx.encloses(#[trigger] objs[i].bbox_spec())
    &&& forall|k: int|
        0 <= k < 3 ==> exists|i: int|
            0 <= i < objs.len() && (#[trigger] objs[i].bbox_spec()).axis_spec(k).min == (#[trigger] bx.axis_spec(
                k,
            )).min
    &&& forall|k: int|
        0 <= k < 3 ==> exists|i: int|
            0 <= i < objs.len() && (#[trigger] objs[i].bbox_spec()).axis_spec(k).max == (#[trigger] bx.axis_spec(
                k,
            )).max
}

/// Whether the node splits `objs` into `lo` (the first half, rounded down)
/// and `hi`, every box of `lo` starting no later than every box of `hi` along
/// the longest axis of the node's box, each child boxing its half.
pub open spec fn split_on_longest_axis(n: BvhNode, lo: Seq<Hittable>, hi: Seq<Hittable>, objs: Seq<Hittable>) -> bool {
    let axis = n.bbox.longest_axis_spec() as int;
    &&& lo.len() == objs.len() / 2
    &&& lo.len() + hi.len() == objs.len()
    &&& same_elements(lo + hi, objs)
    &&& forall|i: int, j: int|
        0 <= i < lo.len() && 0 <= j < hi.len() ==> box_key(#[trigger] lo[i], axis) <= box_key(#[trigger] hi[j], axis)
    &&& union_of(n.left.bbox_spec(), lo)
    &&& union_of(n.right.bbox_spec(), hi)
}

/// A box that is the union of some objects' boxes is determined by them.
proof fn lemma_union_of_unique(a: Aabb, b: Aabb, objs: Seq<Hittable>)
    requires
        union_of(a, objs),
        union_of(b, objs),
    ensures
        a == b,
{
    assert forall|k: int| 0 <= k < 3 implies (#[trigger] a.axis_spec(k)) == b.axis_spec(k) by {
        let i = choose|i: int|
            0 <= i < objs.len() && (#[trigger] objs[i].bbox_spec()).axis_spec(k).min == (#[trigger] a.axis_spec(k)).min;
        let j = choose|j: int|
            0 <= j < objs.len() && (#[trigger] objs[j].bbox_spec()).axis_spec(k).min == (#[trigger] b.axis_spec(k)).min;
        let i2 = choose|i: int|
            0 <= i < objs.len() && (#[trigger] objs[i].bbox_spec()).axis_spec(k).max == (#[trigger] a.axis_spec(k)).max;
        let j2 = choose|j: int|
            0 <= j < objs.len() && (#[trigger] objs[j].bbox_spec()).axis_spec(k).max == (#[trigger] b.axis_spec(k)).max;
        assert(a.encloses(objs[j].bbox_spec()) && b.encloses(objs[i].bbox_spec()));
        assert(a.encloses(objs[j2].bbox_spec()) && b.encloses(objs[i2].bbox_spec()));
    }
    assert(a.x == a.axis_spec(0) && a.y == a.axis_spec(1) && a.z == a.axis_spec(2));
    assert(b.x == b.axis_spec(0) && b.y == b.axis_spec(1) && b.z == b.axis_spec(2));
}

proof fn lemma_same_elements_refl(s: Seq<Hittable>)
    ensures
        same_elements(s, s),
{
    assert forall|i: int| 0 <= i < s.len() implies s.contains(#[trigger] s[i]) by {}
}

proof fn lemma_same_elements_pair(o: Hittable)
    ensures
        same_elements(seq![o] + seq![o], seq![o]),
{
    let a = seq![o] + seq![o];
    assert forall|i: int| 0 <= i < a.len() implies seq![o].contains(#[trigger] a[i]) by {
        assert(seq![o][0] == a[i]);
    }
    assert forall|j: int| 0 <= j < 1 implies a.contains(#[trigger] seq![o][j]) by {
        assert(a[0] == seq![o][j]);
    }
}

proof fn lemma_union_of_single(o: Hittable)
    ensures
        union_of(o.bbox_spec(), seq![o]),
{
    let s = seq![o];
    assert(s[0] == o);
    assert forall|k: int| 0 <= k < 3 implies exists|i: int|
        0 <= i < s.len() && (#[trigger] s[i].bbox_spec()).axis_spec(k).min == (#[trigger] o.bbox_spec().axis_spec(
            k,
        )).min by {
        assert(s[0].bbox_spec().axis_spec(k).min == o.bbox_spec().axis_spec(k).min);
    }
    assert forall|k: int| 0 <= k < 3 implies exists|i: int|
        0 <= i < s.len() && (#[trigger] s[i].bbox_spec()).axis_spec(k).max == (#[trigger] o.bbox_spec().axis_spec(
            k,
        )).max by {
        assert(s[0].bbox_spec().axis_spec(k).max == o.bbox_spec().axis_spec(k).max);
    }
}

/// Joining the boxes of two groups gives the box of both.
proof fn lemma_union_of_join(lb: Aabb, rb: Aabb, s1: Seq<Hittable>, s2: Seq<Hittable>, objs: Seq<Hittable>)
    requires
        union_of(lb, s1),
        union_of(rb, s2),
        same_elements(s1 + s2, objs),
    ensures
        union_of(Aabb::union_spec(lb, rb), objs),
{
    let u = Aabb::union_spec(lb, rb);
    let s = s1 + s2;
    let n1 = s1.len() as int;
    assert(u.axis_spec(0) == u.x && u.axis_spec(1) == u.y && u.axis_spec(2) == u.z);
    assert forall|i: int| 0 <= i < objs.len() implies u.encloses(#[trigger] objs[i].bbox_spec()) by {
        assert(s.contains(objs[i]));
        let j = choose|j: int| 0 <= j < s.len() && s[j] == objs[i];
        lemma_union_encloses(lb, rb);
        if j < n1 {
            assert(s1[j] == s[j]);
            assert(lb.encloses(s1[j].bbox_spec()));
            lemma_encloses_trans(u, lb, objs[i].bbox_spec());
        } else {
            assert(s2[j - n1] == s[j]);
            assert(rb.encloses(s2[j - n1].bbox_spec()));
            lemma_encloses_trans(u, rb, objs[i].bbox_spec());
        }
    }
    assert forall|k: int| 0 <= k < 3 implies exists|i: int|
        0 <= i < objs.len() && (#[trigger] objs[i].bbox_spec()).axis_spec(k).min == (#[trigger] u.axis_spec(k)).min by {
        let e = if lb.axis_spec(k).min <= rb.axis_spec(k).min {
            let i = choose|i: int| 0 <= i < s1.len() && (#[trigger] s1[i].bbox_spec()).axis_spec(k).min == lb.axis_spec(k).min;
            s1[i]
        } else {
            let i = choose|i: int| 0 <= i < s2.len() && (#[trigger] s2[i].bbox_spec()).axis_spec(k).min == rb.axis_spec(k).min;
            s2[i]
        };
        assert(e.bbox_spec().axis_spec(k).min == u.axis_spec(k).min);
        lemma_in_join(s1, s2, e);
        assert(objs.contains(e));
        let j = choose|j: int| 0 <= j < objs.len() && objs[j] == e;
        assert(objs[j].bbox_spec().axis_spec(k).min == u.axis_spec(k).min);
    }
    assert forall|k: int| 0 <= k < 3 implies exists|i: int|
        0 <= i < objs.len() && (#[trigger] objs[i].bbox_spec()).axis_spec(k).max == (#[trigger] u.axis_spec(k)).max by {
        let e = if lb.axis_spec(k).max >= rb.axis_spec(k).max {
            let i = choose|i: int| 0 <= i < s1.len() && (#[trigger] s1[i].bbox_spec()).axis_spec(k).max == lb.axis_spec(k).max;
            s1[i]
        } else {
            let i = choose|i: int| 0 <= i < s2.len() && (#[trigger] s2[i].bbox_spec()).axis_spec(k).max == rb.axis_spec(k).max;
            s2[i]
        };
        assert(e.bbox_spec().axis_spec(k).max == u.axis_spec(k).max);
        lemma_in_join(s1, s2, e);
        assert(objs.contains(e));
        let j = choose|j: int| 0 <= j < objs.len() && objs[j] == e;
        assert(objs[j].bbox_spec().axis_spec(k).max == u.axis_spec(k).max);
    }
}

proof fn lemma_union_encloses(a: Aabb, b: Aabb)
    ensures
        Aabb::union_spec(a, b).encloses(a),
        Aabb::union_spec(a, b).encloses(b),
{
    let u = Aabb::union_spec(a, b);
    assert(u.axis_spec(0) == u.x && u.axis_spec(1) == u.y && u.axis_spec(2) == u.z);
}

proof fn lemma_encloses_trans(a: Aabb, b: Aabb, c: Aabb)
    requires
        a.encloses(b),
        b.encloses(c),
    ensures
        a.encloses(c),
{
    assert forall|k: int| 0 <= k < 3 implies (#[trigger] a.axis_spec(k)).min <= c.axis_spec(k).min && c.axis_spec(
        k,
    ).max <= a.axis_spec(k).max by {
        assert(b.axis_spec(k).min <= c.axis_spec(k).min && c.axis_spec(k).max <= b.axis_spec(k).max);
    }
}

/// An element of either part is an element of the joined sequence.
proof fn lemma_in_join(s1: Seq<Hittable>, s2: Seq<Hittable>, e: Hittable)
    requires
        s1.contains(e) || s2.contains(e),
    ensures
        (s1 + s2).contains(e),
{
    let s = s1 + s2;
    if s1.contains(e) {
        let i = choose|i: int| 0 <= i < s1.len() && s1[i] == e;
        assert(s[i] == e);
    } else {
        let i = choose|i: int| 0 <= i < s2.len() && s2[i] == e;
        assert(s[i + s1.len()] == e);
    }
}

/// A well-formed object's hit alone is the nearest hit of the one-object group.
proof fn lemma_nearest_single(o: Hittable, r: Ray, t: Interval)
    requires
        o.wf(),
        ray_in_range(r),
    ensures
        nearest_in(o.hit_spec(r, t), seq![o], r, t),
{
    let s = seq![o];
    assert(s[0] == o);
    lemma_hit_den_positive(o, r, t);
    if o.hit_spec(r, t) is Some {
        let h = o.hit_spec(r, t).unwrap();
        assert(s[0].hit_spec(r, t) is Some && same_t(s[0].hit_spec(r, t).unwrap(), h));
        assert(frac_le(h.t_num as int, h.t_den as int, h.t_num as int, h.t_den as int));
    }
}

/// A part of a group whose boxes catch their hits catches its own.
proof fn lemma_catch_sub(objs: Seq<Hittable>, part: Seq<Hittable>, r: Ray, t: Interval)
    requires
        boxes_catch_hits(objs, r, t),
        forall|i: int| 0 <= i < part.len() ==> objs.contains(#[trigger] part[i]),
    ensures
        boxes_catch_hits(part, r, t),
{
    assert forall|k: int| 0 <= k < part.len() && (#[trigger] part[k].hit_spec(r, t)) is Some implies part[k].bbox_spec().slab_hit(
        r,
        t,
    ) by {
        assert(objs.contains(part[k]));
        let j = choose|j: int| 0 <= j < objs.len() && objs[j] == part[k];
        assert(objs[j].hit_spec(r, t) is Some);
    }
}

/// A node whose children find the nearest hits of two groups, and whose box
/// encloses the boxes of all their objects, finds the nearest hit of all.
proof fn lemma_node_nearest(n: BvhNode, s1: Seq<Hittable>, s2: Seq<Hittable>, objs: Seq<Hittable>, r: Ray, t: Interval)
    requires
        nearest_in(n.left.hit_spec(r, t), s1, r, t),
        nearest_in(n.right.hit_spec(r, t), s2, r, t),
        same_elements(s1 + s2, objs),
        union_of(n.bbox, objs),
        forall|i: int| 0 <= i < objs.len() ==> (#[trigger] objs[i]).wf(),
        boxes_catch_hits(objs, r, t),
    ensures
        nearest_in(Hittable::Bvh(n).hit_spec(r, t), objs, r, t),
{
    let c = nearer(n.left.hit_spec(r, t), n.right.hit_spec(r, t));
    lemma_nearer_of_groups(n.left.hit_spec(r, t), n.right.hit_spec(r, t), s1, s2, r, t);
    lemma_nearest_transfer(c, s1 + s2, objs, r, t);
    if exists|k: int| 0 <= k < objs.len() && (#[trigger] objs[k].hit_spec(r, t)) is Some {
        let k = choose|k: int| 0 <= k < objs.len() && (#[trigger] objs[k].hit_spec(r, t)) is Some;
        let o = objs[k];
        assert(o.wf());
        assert(o.bbox_spec().valid());
        assert(n.bbox.encloses(o.bbox_spec()));
        lemma_slab_hit_enclosing(o.bbox_spec(), n.bbox, r, t);
    }
}

/// The union of the boxes of `objects`.
fn joint_box(objects: &Vec<Hittable>) -> (bbox: Aabb)
    requires
        objects@.len() >= 1,
        forall|i: int| 0 <= i < objects@.len() ==> (#[trigger] objects@[i]).wf(),
    ensures
        union_of(bbox, objects@),
        bbox.within(4 * GEOM_LIMIT),
{
    let ghost objs = objects@;
    let object_span = objects.len();
    let mut bbox = objects[0].bounding_box();
    proof {
        lemma_union_of_single(objects@[0]);
        assert(objects@.subrange(0, 1) =~= seq![objects@[0]]);
    }
    let mut i: usize = 1;
    while i < object_span
        invariant
            1 <= i <= object_span,
            object_span == objects@.len(),
            objects@ == objs,
            bbox.within(4 * GEOM_LIMIT),
            union_of(bbox, objs.subrange(0, i as int)),
            forall|k: int| 0 <= k < objects@.len() ==> (#[trigger] objects@[k]).wf(),
        decreases object_span - i,
    {
        assert(objects@[i as int].wf());
        let ob = objects[i].bounding_box();
        proof {
            let pre = objs.subrange(0, i as int);
            let o = objs[i as int];
            lemma_union_of_single(o);
            assert(pre + seq![o] =~= objs.subrange(0, i as int + 1));
            lemma_same_elements_refl(pre + seq![o]);
            lemma_union_of_join(bbox, ob, pre, seq![o], objs.subrange(0, i as int + 1));
        }
        bbox = Aabb::two_aabb(&bbox, &ob);
        i = i + 1;
    }
    assert(objs.subrange(0, object_span as int) =~= objs);
    bbox
}

/// Whether box `a` starts before box `b` along `axis`.
fn box_compare(a: &Hittable, b: &Hittable, axis: u32) -> (r: bool)
    ensures
        r == (a.bbox_spec().axis_spec(if axis == 1 { 1int } else if axis == 2 { 2int } else { 0int }).min
            < b.bbox_spec().axis_spec(if axis == 1 { 1int } else if axis == 2 { 2int } else { 0int }).min),
{
    let a_axis_interval = a.bounding_box().axis_interval(axis);
    let b_axis_interval = b.bounding_box().axis_interval(axis);
    a_axis_interval.min < b_axis_interval.min
}

/// The objects in order of the lower bounds of their boxes along `axis`,
/// by repeatedly moving out the one whose box starts first.
fn sort_by_axis(objects: Vec<Hittable>, axis: usize) -> (r: Vec<Hittable>)
    requires
        axis < 3,
        forall|i: int| 0 <= i < objects@.len() ==> (#[trigger] objects@[i]).wf(),
    ensures
        r@.len() == objects@.len(),
        same_elements(r@, objects@),
        forall|i: int| 0 <= i < r@.len() ==> (#[trigger] r@[i]).wf(),
        forall|i: int, j: int|
            0 <= i < j < r@.len() ==> box_key(#[trigger] r@[i], axis as int) <= box_key(
                #[trigger] r@[j],
                axis as int,
            ),
{
    let mut rest = objects;
    let mut out: Vec<Hittable> = Vec::new();
    let ghost n = rest@.len();
    let ghost orig = objects@;
    assert(out@ + rest@ =~= orig);
    proof {
        lemma_same_elements_refl(orig);
    }
    while rest.len() > 0
        invariant
            axis < 3,
            out@.len() + rest@.len() == n,
            same_elements(out@ + rest@, orig),
            forall|i: int| 0 <= i < rest@.len() ==> (#[trigger] rest@[i]).wf(),
            forall|i: int| 0 <= i < out@.len() ==> (#[trigger] out@[i]).wf(),
            forall|i: int, j: int|
                0 <= i < j < out@.len() ==> box_key(#[trigger] out@[i], axis as int) <= box_key(
                    #[trigger] out@[j],
                    axis as int,
                ),
            forall|i: int, j: int|
                0 <= i < out@.len() && 0 <= j < rest@.len() ==> box_key(#[trigger] out@[i], axis as int)
                    <= box_key(#[trigger] rest@[j], axis as int),
        decreases rest@.len(),
    {
        let mut best: usize = 0;
        let mut k: usize = 1;
        while k < rest.len()
            invariant
                axis < 3,
                0 <= best < rest@.len(),
                1 <= k <= rest@.len(),
                forall|j: int| 0 <= j < k ==> box_key(rest@[best as int], axis as int) <= box_key(
                    #[trigger] rest@[j],
                    axis as int,
                ),
            decreases rest@.len() - k,
        {
            if box_compare(&rest[k], &rest[best], axis as u32) {
                best = k;
            }
            k = k + 1;
        }
        let ghost before = rest@;
        let x = rest.remove(best);
        assert forall|j: int| 0 <= j < rest@.len() implies box_key(x, axis as int) <= box_key(
            #[trigger] rest@[j],
            axis as int,
        ) by {
            if j < best {
                assert(rest@[j] == before[j]);
            } else {
                assert(rest@[j] == before[j + 1]);
            }
        }
        assert forall|j: int| 0 <= j < rest@.len() implies (#[trigger] rest@[j]).wf() by {
            if j < best {
                assert(rest@[j] == before[j]);
            } else {
                assert(rest@[j] == before[j + 1]);
            }
        }
        assert forall|i: int, j: int|
            0 <= i < out@.len() && 0 <= j < rest@.len() implies box_key(#[trigger] out@[i], axis as int)
                <= box_key(#[trigger] rest@[j], axis as int) by {
            if j < best {
                assert(rest@[j] == before[j]);
            } else {
                assert(rest@[j] == before[j + 1]);
            }
        }
        let ghost old_out = out@;
        out.push(x);
        proof {
            lemma_move_element(old_out, before, best as int);
            assert(out@ + rest@ =~= old_out.push(before[best as int]) + before.remove(best as int));
            lemma_same_elements_trans(out@ + rest@, old_out + before, orig);
        }
    }
    assert(out@ + rest@ =~= out@);
    out
}

} // verus!
