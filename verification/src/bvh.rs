//! The bounding volume hierarchy: a binary tree of boxes over the surfaces of
//! a scene, built once, that spares a ray most of its tests.
use crate::aabb::{
    box_less, lemma_encloses_is_transitive, lemma_union_encloses, min_key, AABB,
};
use crate::hittable::{HitRecord, Hittable, HittableList};
use crate::ray::Ray;
use crate::rtweekend::random;
use crate::scalar::Scalar;
use crate::vec3::Vec3;
use rand::rngs::StdRng;
use vstd::prelude::*;

verus! {

broadcast use vstd::seq_lib::group_to_multiset_ensures;

/// Why a hierarchy could not be built.
#[derive(Clone, Copy, Debug, PartialEq, Eq, Structural)]
pub enum BvhError {
    /// The span ends behind the last surface.
    SpanOutOfRange,
    /// The span holds no surface.
    EmptySpan,
    /// A surface of the span reports no bounding box.
    NoBoundingBox,
}

/// One of the two slots of a node: a surface, named by its place in the list
/// that the hierarchy was built over, or a node below.
#[derive(Debug)]
pub enum BvhChild {
    Object(usize),
    Node(Box<BvhNode>),
}

/// A node of the hierarchy, with the box around everything below it.
#[derive(Debug)]
pub struct BvhNode {
    pub left: BvhChild,
    pub right: BvhChild,
    pub bbox: AABB,
}

/// On `axis` no surface of `left` lies after a surface of `right`.
pub open spec fn separated(keys: Seq<AABB>, left: Seq<usize>, right: Seq<usize>, axis: i32) -> bool {
    forall|i: int, j: int|
        0 <= i < left.len() && 0 <= j < right.len() ==> min_key(
            keys[#[trigger] left[i] as int],
            axis,
        ) <= min_key(keys[#[trigger] right[j] as int], axis)
}

/// The places `start`, `start + 1`, ... up to `end`, which is left out.
pub open spec fn span_indices(start: usize, end: usize) -> Seq<usize> {
    Seq::new((end - start) as nat, |k: int| (start + k) as usize)
}

/// The box with both corners at the origin.
pub open spec fn blank_box() -> AABB {
    AABB { minimum: Vec3::zero_vector(), maximum: Vec3::zero_vector() }
}

/// For every surface of the span its box over the time from `time0` to
/// `time1`; the blank box for the others, and where a surface has none.
pub open spec fn span_boxes<H: Hittable>(
    objects: Seq<H>,
    start: usize,
    end: usize,
    time0: Scalar,
    time1: Scalar,
) -> Seq<AABB> {
    Seq::new(
        objects.len(),
        |i: int|
            if start <= i < end && objects[i].box_spec(time0, time1) is Some {
                objects[i].box_spec(time0, time1)->0
            } else {
                blank_box()
            },
    )
}

/// Whether every surface of the span has a box, both over the time from
/// `time0` to `time1` and at time zero, where the surfaces are ordered.
pub open spec fn all_boxed<H: Hittable>(
    objects: Seq<H>,
    start: usize,
    end: usize,
    time0: Scalar,
    time1: Scalar,
) -> bool {
    forall|i: int|
        start <= i < end ==> (#[trigger] objects[i]).box_spec(time0, time1) is Some
            && objects[i].box_spec(Scalar { bits: 0 }, Scalar { bits: 0 }) is Some
}

/// Whether `crossed` is the function that the box test `crosses` computes.
pub open spec fn computes<F: Fn(&AABB, Scalar, Scalar) -> bool>(
    crosses: F,
    crossed: spec_fn(AABB, Scalar, Scalar) -> bool,
) -> bool {
    forall|b: AABB, lo: Scalar, hi: Scalar, out: bool| #[trigger]
        crosses.ensures((&b, lo, hi), out) ==> out == crossed(b, lo, hi)
}

impl BvhChild {
    /// The surfaces below, from left to right.
    pub open spec fn leaves(self) -> Seq<usize>
        decreases self,
    {
        match self {
            BvhChild::Object(i) => seq![i],
            BvhChild::Node(n) => n.leaves(),
        }
    }

    /// The box of a slot: the surface's own box, or the node's cached box.
    pub open spec fn bounds(self, boxes: Seq<AABB>) -> AABB {
        match self {
            BvhChild::Object(i) => boxes[i as int],
            BvhChild::Node(n) => n.bbox,
        }
    }

    pub open spec fn built_over(self, keys: Seq<AABB>, boxes: Seq<AABB>) -> bool
        decreases self,
    {
        match self {
            BvhChild::Object(i) => i < keys.len() && i < boxes.len(),
            BvhChild::Node(n) => n.built_over(keys, boxes),
        }
    }

    /// What a ray hits below this slot. A place that the list does not have
    /// is never hit.
    pub open spec fn hit_in<H: Hittable>(
        self,
        objects: Seq<H>,
        ray: Ray,
        t_min: Scalar,
        t_max: Scalar,
        crossed: spec_fn(AABB, Scalar, Scalar) -> bool,
    ) -> Option<HitRecord>
        decreases self,
    {
        match self {
            BvhChild::Object(i) => if i < objects.len() {
                objects[i as int].hit_spec(ray, t_min, t_max)
            } else {
                None
            },
            BvhChild::Node(n) => n.hit_in(objects, ray, t_min, t_max, crossed),
        }
    }

    fn hit<H: Hittable, F: Fn(&AABB, Scalar, Scalar) -> bool>(
        &self,
        objects: &Vec<H>,
        ray: &Ray,
        t_min: Scalar,
        t_max: Scalar,
        crosses: &F,
    ) -> (r: Option<HitRecord>)
        requires
            forall|b: &AABB, lo: Scalar, hi: Scalar| crosses.requires((b, lo, hi)),
        ensures
            r is Some ==> (r->0).within(t_min, t_max),
            forall|crossed: spec_fn(AABB, Scalar, Scalar) -> bool| #[trigger]
                computes(*crosses, crossed) ==> r == self.hit_in(
                    objects@,
                    *ray,
                    t_min,
                    t_max,
                    crossed,
                ),
        decreases self,
    {
        match self {
            BvhChild::Object(i) => {
                if *i < objects.len() {
                    objects[*i].hit(ray, t_min, t_max)
                } else {
                    None
                }
            },
            BvhChild::Node(n) => n.hit(objects, ray, t_min, t_max, crosses),
        }
    }
}

impl BvhNode {
    /// A node of one surface: both slots hold the same surface.
    pub open spec fn degenerate(self) -> bool {
        match (self.left, self.right) {
            (BvhChild::Object(i), BvhChild::Object(j)) => i == j,
            _ => false,
        }
    }

    /// The surfaces below, from left to right; the one surface of a
    /// degenerate node counts once.
    pub open spec fn leaves(self) -> Seq<usize>
        decreases self,
    {
        if self.degenerate() {
            self.left.leaves()
        } else {
            self.left.leaves() + self.right.leaves()
        }
    }

    /// Whether the slots of this node are filled as the number of surfaces
    /// below asks: surfaces themselves for one or two, else two nodes, the
    /// left one over the first half, rounded down.
    pub open spec fn halved(self) -> bool {
        match (self.left, self.right) {
            (BvhChild::Object(_), BvhChild::Object(_)) => true,
            (BvhChild::Node(l), BvhChild::Node(r)) => {
                &&& l.leaves().len() + r.leaves().len() >= 3
                &&& l.leaves().len() == (l.leaves().len() + r.leaves().len()) / 2
            },
            _ => false,
        }
    }

    /// Whether this is a hierarchy over surfaces with the boxes `boxes`,
    /// ordered by the boxes `keys`: at every node the cached box is the union
    /// of the boxes of the two slots, the surfaces are split by halves, and
    /// there is an axis on which nothing on the left lies after anything on
    /// the right.
    pub open spec fn built_over(self, keys: Seq<AABB>, boxes: Seq<AABB>) -> bool
        decreases self,
    {
        &&& self.left.built_over(keys, boxes)
        &&& self.right.built_over(keys, boxes)
        &&& self.bbox == self.left.bounds(boxes).union_of(self.right.bounds(boxes))
        &&& self.halved()
        &&& exists|axis: i32|
            0 <= axis < 3 && #[trigger] separated(
                keys,
                self.left.leaves(),
                self.right.leaves(),
                axis,
            )
    }

    /// What a ray hits below this node, where `crossed` says which boxes the
    /// ray meets in which window. A ray that misses the node's box hits
    /// nothing. Otherwise the left slot is asked first, and the right slot in
    /// the window that a hit on the left has narrowed; a hit on the right
    /// replaces the one on the left.
    pub open spec fn hit_in<H: Hittable>(
        self,
        objects: Seq<H>,
        ray: Ray,
        t_min: Scalar,
        t_max: Scalar,
        crossed: spec_fn(AABB, Scalar, Scalar) -> bool,
    ) -> Option<HitRecord>
        decreases self,
    {
        if !crossed(self.bbox, t_min, t_max) {
            None
        } else {
            let on_left = self.left.hit_in(objects, ray, t_min, t_max, crossed);
            let limit = if on_left is Some { (on_left->0).t } else { t_max };
            let on_right = self.right.hit_in(objects, ray, t_min, limit, crossed);
            if on_right is Some {
                on_right
            } else {
                on_left
            }
        }
    }

    /// Builds the hierarchy over all surfaces of a list.
    pub fn from<H: Hittable>(
        list: &HittableList<H>,
        time0: Scalar,
        time1: Scalar,
        rng: &mut StdRng,
    ) -> (r: Result<BvhNode, BvhError>)
        ensures
            built(list.objects@, 0, list.objects.len(), time0, time1, r),
    {
        BvhNode::new(&list.objects, 0, list.objects.len(), time0, time1, rng)
    }

    /// Builds the hierarchy over the surfaces from place `start` up to
    /// place `end`, which is left out. At every node an axis is drawn at
    /// random; one surface fills both slots, two surfaces are put in order,
    /// and more are sorted along the axis and split at the middle. The
    /// surfaces are ordered by the minimum of their boxes at time zero.
    pub fn new<H: Hittable>(
        src_objects: &Vec<H>,
        start: usize,
        end: usize,
        time0: Scalar,
        time1: Scalar,
        rng: &mut StdRng,
    ) -> (r: Result<BvhNode, BvhError>)
        ensures
            built(src_objects@, start, end, time0, time1, r),
    {
        if end > src_objects.len() {
            return Err(BvhError::SpanOutOfRange);
        }
        if start >= end {
            return Err(BvhError::EmptySpan);
        }
        let blank = AABB::new(Vec3::new(None, None, None), Vec3::new(None, None, None));
        let mut keys: Vec<AABB> = Vec::new();
        let mut boxes: Vec<AABB> = Vec::new();
        let mut items: Vec<usize> = Vec::new();
        let mut i: usize = 0;
        while i < src_objects.len()
            invariant
                i <= src_objects.len(),
                start < end <= src_objects.len(),
                blank == blank_box(),
                keys@ == span_boxes(
                    src_objects@,
                    start,
                    end,
                    Scalar { bits: 0 },
                    Scalar { bits: 0 },
                ).subrange(0, i as int),
                boxes@ == span_boxes(src_objects@, start, end, time0, time1).subrange(0, i as int),
                all_boxed(src_objects@, start, if i < end { i } else { end }, time0, time1),
                i <= start ==> items@.len() == 0,
                start <= i <= end ==> items@ == span_indices(start, i),
                i >= end ==> items@ == span_indices(start, end),
            decreases src_objects.len() - i,
        {
            if start <= i && i < end {
                let key_box = src_objects[i].bounding_box(Scalar::zero(), Scalar::zero());
                let own_box = src_objects[i].bounding_box(time0, time1);
                match (key_box, own_box) {
                    (Some(k), Some(b)) => {
                        keys.push(k);
                        boxes.push(b);
                        items.push(i);
                    },
                    _ => {
                        return Err(BvhError::NoBoundingBox);
                    },
                }
            } else {
                keys.push(blank);
                boxes.push(blank);
            }
            i += 1;
        }
        proof {
            let all_keys = span_boxes(
                src_objects@,
                start,
                end,
                Scalar { bits: 0 },
                Scalar { bits: 0 },
            );
            let all_own = span_boxes(src_objects@, start, end, time0, time1);
            assert(all_keys.subrange(0, i as int) == all_keys);
            assert(all_own.subrange(0, i as int) == all_own);
        }
        let node = BvhNode::build(&keys, &boxes, items, rng);
        Ok(node)
    }

    /// Builds the node over the surfaces at the places `items`.
    fn build(keys: &Vec<AABB>, boxes: &Vec<AABB>, items: Vec<usize>, rng: &mut StdRng) -> (node:
        BvhNode)
        requires
            items.len() >= 1,
            items@.no_duplicates(),
            keys.len() == boxes.len(),
            forall|k: int| 0 <= k < items.len() ==> items[k] < keys.len(),
        ensures
            node.built_over(keys@, boxes@),
            node.leaves().to_multiset() == items@.to_multiset(),
            node.leaves().len() == items.len(),
        decreases items.len(),
    {
        let axis = random(rng, 0, 3);
        let object_span = items.len();
        if object_span == 1 {
            let only = items[0];
            let node = BvhNode {
                left: BvhChild::Object(only),
                right: BvhChild::Object(only),
                bbox: AABB::surrounding_box(boxes[only], boxes[only]),
            };
            proof {
                assert(node.leaves() == items@);
                assert(separated(keys@, node.left.leaves(), node.right.leaves(), axis));
            }
            node
        } else if object_span == 2 {
            let first = items[0];
            let second = items[1];
            let in_order = box_less(&keys[first], &keys[second], axis);
            let lower = if in_order { first } else { second };
            let upper = if in_order { second } else { first };
            let node = BvhNode {
                left: BvhChild::Object(lower),
                right: BvhChild::Object(upper),
                bbox: AABB::surrounding_box(boxes[lower], boxes[upper]),
            };
            proof {
                assert(items@ == seq![first].push(second));
                assert(separated(keys@, node.left.leaves(), node.right.leaves(), axis));
                assert(items@[0] != items@[1]);
                assert(node.leaves() == seq![lower].push(upper));
            }
            node
        } else {
            let sorted = sort_by_axis(keys, &items, axis);
            let mid = object_span / 2;
            let mut left_items: Vec<usize> = Vec::new();
            let mut right_items: Vec<usize> = Vec::new();
            let mut k: usize = 0;
            while k < object_span
                invariant
                    k <= object_span,
                    object_span == sorted.len(),
                    mid == object_span / 2,
                    left_items@ == sorted@.subrange(0, if k < mid { k as int } else { mid as int }),
                    right_items@ == sorted@.subrange(
                        mid as int,
                        if k < mid { mid as int } else { k as int },
                    ),
                decreases object_span - k,
            {
                if k < mid {
                    left_items.push(sorted[k]);
                } else {
                    right_items.push(sorted[k]);
                }
                k += 1;
            }
            proof {
                assert(sorted@ == left_items@ + right_items@);
                vstd::seq_lib::lemma_multiset_commutative(left_items@, right_items@);
                items@.lemma_multiset_has_no_duplicates();
                sorted@.lemma_multiset_has_no_duplicates_conv();
            }
            let left = BvhNode::build(keys, boxes, left_items, rng);
            let right = BvhNode::build(keys, boxes, right_items, rng);
            let bbox = AABB::surrounding_box(left.bbox, right.bbox);
            proof {
                vstd::seq_lib::lemma_multiset_commutative(left.leaves(), right.leaves());
                assert forall|i: int, j: int|
                    0 <= i < left.leaves().len() && 0 <= j < right.leaves().len() implies min_key(
                    keys@[#[trigger] left.leaves()[i] as int],
                    axis,
                ) <= min_key(keys@[#[trigger] right.leaves()[j] as int], axis) by {
                    let a = left.leaves()[i];
                    let b = right.leaves()[j];
                    assert(left.leaves().contains(a));
                    assert(right.leaves().contains(b));
                    assert(left.leaves().to_multiset().count(a) > 0);
                    assert(right.leaves().to_multiset().count(b) > 0);
                    assert(left_items@.contains(a));
                    assert(right_items@.contains(b));
                    let ia = choose|ia: int| 0 <= ia < left_items@.len() && left_items@[ia] == a;
                    let ib = choose|ib: int| 0 <= ib < right_items@.len() && right_items@[ib] == b;
                    assert(sorted@[ia] == a);
                    assert(sorted@[mid + ib] == b);
                }
                assert(separated(keys@, left.leaves(), right.leaves(), axis));
            }
            let node = BvhNode {
                left: BvhChild::Node(Box::new(left)),
                right: BvhChild::Node(Box::new(right)),
                bbox,
            };
            proof {
                assert(node.left.leaves() == left.leaves());
                assert(node.right.leaves() == right.leaves());
                assert(!node.degenerate());
                assert(node.leaves() == left.leaves() + right.leaves());
            }
            node
        }
    }

    /// The cached box around everything below the node.
    pub fn bounding_box(&self, time0: Scalar, time1: Scalar) -> (r: Option<AABB>)
        ensures
            r == Some(self.bbox),
    {
        Some(self.bbox)
    }

    /// What the ray hits below this node inside the window from `t_min` to
    /// `t_max`. `objects` is the list that the hierarchy was built over, and
    /// `crosses` tells whether the ray meets a box inside a window.
    pub fn hit<H: Hittable, F: Fn(&AABB, Scalar, Scalar) -> bool>(
        &self,
        objects: &Vec<H>,
        ray: &Ray,
        t_min: Scalar,
        t_max: Scalar,
        crosses: &F,
    ) -> (r: Option<HitRecord>)
        requires
            forall|b: &AABB, lo: Scalar, hi: Scalar| crosses.requires((b, lo, hi)),
        ensures
            r is Some ==> (r->0).within(t_min, t_max),
            forall|crossed: spec_fn(AABB, Scalar, Scalar) -> bool| #[trigger]
                computes(*crosses, crossed) ==> r == self.hit_in(
                    objects@,
                    *ray,
                    t_min,
                    t_max,
                    crossed,
                ),
        decreases self,
    {
        if !crosses(&self.bbox, t_min, t_max) {
            return None;
        }
        let on_left = self.left.hit(objects, ray, t_min, t_max, crosses);
        let limit = match on_left {
            Some(rec) => rec.t,
            None => t_max,
        };
        let on_right = self.right.hit(objects, ray, t_min, limit, crosses);
        match on_right {
            Some(rec) => Some(rec),
            None => on_left,
        }
    }
}

/// What `BvhNode::new` returns for a span of a list: a hierarchy whose
/// leaves are the places of the span, each once, where the span is not empty,
/// lies in the list and every surface in it has a box; else the error that
/// says which of these failed first.
pub open spec fn built<H: Hittable>(
    objects: Seq<H>,
    start: usize,
    end: usize,
    time0: Scalar,
    time1: Scalar,
    r: Result<BvhNode, BvhError>,
) -> bool {
    match r {
        Ok(node) => {
            &&& start < end <= objects.len()
            &&& all_boxed(objects, start, end, time0, time1)
            &&& node.built_over(
                span_boxes(objects, start, end, Scalar { bits: 0 }, Scalar { bits: 0 }),
                span_boxes(objects, start, end, time0, time1),
            )
            &&& node.leaves().to_multiset() == span_indices(start, end).to_multiset()
        },
        Err(BvhError::SpanOutOfRange) => end > objects.len(),
        Err(BvhError::EmptySpan) => end <= objects.len() && start >= end,
        Err(BvhError::NoBoundingBox) => {
            &&& start < end <= objects.len()
            &&& !all_boxed(objects, start, end, time0, time1)
        },
    }
}

/// Whether every surface below a slot has an ordered box.
pub open spec fn leaves_ordered(leaves: Seq<usize>, boxes: Seq<AABB>) -> bool {
    forall|k: int| 0 <= k < leaves.len() ==> boxes[#[trigger] leaves[k] as int].ordered()
}

/// The box of a slot is ordered and encloses the box of every surface below
/// it, provided the boxes of the surfaces are ordered.
pub proof fn lemma_slot_box_covers(child: BvhChild, keys: Seq<AABB>, boxes: Seq<AABB>)
    requires
        child.built_over(keys, boxes),
        leaves_ordered(child.leaves(), boxes),
    ensures
        child.bounds(boxes).ordered(),
        forall|k: int|
            0 <= k < child.leaves().len() ==> child.bounds(boxes).encloses(
                boxes[#[trigger] child.leaves()[k] as int],
            ),
    decreases child,
{
    match child {
        BvhChild::Object(i) => {
            assert(child.leaves()[0] == i);
        },
        BvhChild::Node(n) => {
            lemma_node_box_covers(*n, keys, boxes);
        },
    }
}

/// The cached box of a node is ordered and encloses the box of every
/// surface below the node, provided the boxes of the surfaces are ordered.
pub proof fn lemma_node_box_covers(node: BvhNode, keys: Seq<AABB>, boxes: Seq<AABB>)
    requires
        node.built_over(keys, boxes),
        leaves_ordered(node.leaves(), boxes),
    ensures
        node.bbox.ordered(),
        forall|k: int|
            0 <= k < node.leaves().len() ==> node.bbox.encloses(
                boxes[#[trigger] node.leaves()[k] as int],
            ),
    decreases node,
{
    let leaves = node.leaves();
    let ll = node.left.leaves();
    let rl = node.right.leaves();
    assert forall|a: int| 0 <= a < ll.len() implies boxes[#[trigger] ll[a] as int].ordered() by {
        assert(leaves[a] == ll[a]);
    }
    assert forall|b: int| 0 <= b < rl.len() implies boxes[#[trigger] rl[b] as int].ordered() by {
        if node.degenerate() {
            assert(leaves[b] == rl[b]);
        } else {
            assert(leaves[ll.len() + b] == rl[b]);
        }
    }
    lemma_slot_box_covers(node.left, keys, boxes);
    lemma_slot_box_covers(node.right, keys, boxes);
    let lb = node.left.bounds(boxes);
    let rb = node.right.bounds(boxes);
    lemma_union_encloses(lb, rb);
    assert forall|k: int| 0 <= k < leaves.len() implies node.bbox.encloses(
        boxes[#[trigger] leaves[k] as int],
    ) by {
        if node.degenerate() || k < ll.len() {
            assert(leaves[k] == ll[k]);
            lemma_encloses_is_transitive(node.bbox, lb, boxes[ll[k] as int]);
        } else {
            let b = k - ll.len();
            assert(leaves[k] == rl[b]);
            lemma_encloses_is_transitive(node.bbox, rb, boxes[rl[b] as int]);
        }
    }
}

/// Sorts places by the minimum of their boxes on an axis. Places with equal
/// keys stay in the order in which they came.
fn sort_by_axis(keys: &Vec<AABB>, items: &Vec<usize>, axis: i32) -> (out: Vec<usize>)
    requires
        items@.no_duplicates(),
        forall|k: int| 0 <= k < items.len() ==> items[k] < keys.len(),
    ensures
        out.len() == items.len(),
        out@.to_multiset() == items@.to_multiset(),
        forall|k: int| 0 <= k < out.len() ==> out[k] < keys.len(),
        forall|a: int, b: int|
            0 <= a < b < out.len() ==> min_key(keys@[out[a] as int], axis) <= min_key(
                keys@[out[b] as int],
                axis,
            ),
        forall|a: int, b: int|
            0 <= a < b < out.len() && min_key(keys@[out[a] as int], axis) == min_key(
                keys@[out[b] as int],
                axis,
            ) ==> items@.index_of(out[a]) < items@.index_of(out[b]),
{
    let mut out: Vec<usize> = Vec::new();
    let ghost mut origin: Seq<int> = Seq::empty();
    let mut i: usize = 0;
    while i < items.len()
        invariant
            i <= items.len(),
            out.len() == i,
            origin.len() == i,
            forall|k: int| 0 <= k < items.len() ==> items[k] < keys.len(),
            out@.to_multiset() == items@.subrange(0, i as int).to_multiset(),
            forall|k: int| 0 <= k < out.len() ==> out[k] < keys.len(),
            forall|k: int|
                0 <= k < out.len() ==> 0 <= #[trigger] origin[k] < i && items[origin[k]] == out[k],
            forall|a: int, b: int|
                0 <= a < b < out.len() ==> min_key(keys@[out[a] as int], axis) <= min_key(
                    keys@[out[b] as int],
                    axis,
                ),
            forall|a: int, b: int|
                0 <= a < b < out.len() && min_key(keys@[out[a] as int], axis) == min_key(
                    keys@[out[b] as int],
                    axis,
                ) ==> origin[a] < origin[b],
        decreases items.len() - i,
    {
        let x = items[i];
        let mut p: usize = out.len();
        while p > 0 && box_less(&keys[x], &keys[out[p - 1]], axis)
            invariant
                p <= out.len(),
                x < keys.len(),
                forall|k: int| 0 <= k < out.len() ==> out[k] < keys.len(),
                forall|k: int|
                    p <= k < out.len() ==> min_key(keys@[x as int], axis) < min_key(
                        keys@[out[k] as int],
                        axis,
                    ),
            decreases p,
        {
            p -= 1;
        }
        proof {
            assert(items@.subrange(0, i as int + 1) == items@.subrange(0, i as int).push(x));
        }
        let ghost before = out@;
        let ghost origin_before = origin;
        out.insert(p, x);
        proof {
            origin = origin_before.insert(p as int, i as int);
            assert forall|k: int| 0 <= k < out.len() implies 0 <= #[trigger] origin[k] < i + 1
                && items[origin[k]] == out[k] by {
                if k < p {
                    assert(origin[k] == origin_before[k]);
                    assert(out[k] == before[k]);
                } else if k > p {
                    assert(origin[k] == origin_before[k - 1]);
                    assert(out[k] == before[k - 1]);
                }
            }
            assert forall|a: int, b: int| 0 <= a < b < out.len() implies min_key(
                keys@[out[a] as int],
                axis,
            ) <= min_key(keys@[out[b] as int], axis) && (min_key(keys@[out[a] as int], axis)
                == min_key(keys@[out[b] as int], axis) ==> origin[a] < origin[b]) by {
                let ka = if a < p { a } else { a - 1 };
                let kb = if b < p { b } else { b - 1 };
                if a != p {
                    assert(out[a] == before[ka]);
                    assert(origin[a] == origin_before[ka]);
                }
                if b != p {
                    assert(out[b] == before[kb]);
                    assert(origin[b] == origin_before[kb]);
                }
                if a < p && b == p && p > 0 {
                    assert(min_key(keys@[before[p - 1] as int], axis) <= min_key(
                        keys@[x as int],
                        axis,
                    ));
                }
            }
        }
        i += 1;
    }
    proof {
        assert(items@.subrange(0, i as int) == items@);
        assert forall|a: int| 0 <= a < out.len() implies items@.index_of(#[trigger] out[a])
            == origin[a] by {
            let j = items@.index_of(out[a]);
            assert(items@[origin[a]] == out[a]);
            assert(0 <= j < items@.len() && items@[j] == out[a]);
        }
    }
    out
}

} // verus!
