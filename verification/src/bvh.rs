//! Construction of the bounding-volume hierarchy, and what its query
//! computes.
//!
//! Construction sorts the objects by the minimum box coordinate on a
//! randomly chosen axis, splits at the midpoint and recurses; a single
//! object is returned directly, with no wrapper node.  The query theorem
//! at the end states the pruning invariant: wherever a node's box test
//! is sound for a ray (a rejected box means neither subtree hits), the
//! hierarchy query returns exactly the nearest-hit fold over its leaves.

use vstd::prelude::*;

use crate::aabb::{aabb_hit_spec, box_contains_box, surround_spec, Aabb, COORD_LIMIT, T_LIMIT};
use crate::fixed::{mag, Fx};
use crate::materials::Material;
use crate::object::{object_box, object_hit, object_wf, Bvh, HitRecord, Object};
use crate::ray::Ray;
use crate::rng::random_u16;
use crate::scene::{box_fold_rest, scan_box};
use crate::vector3::{comp, vec_bounded};

verus! {

/// An object the builder accepts: well formed, with a box that exists
/// and stays within the kernel's coordinate range.
pub open spec fn buildable(o: Object, t0: int, t1: int) -> bool {
    &&& object_wf(o)
    &&& match object_box(o, t0, t1) {
        Some(b) => vec_bounded(b.min, COORD_LIMIT as int) && vec_bounded(
            b.max,
            COORD_LIMIT as int,
        ),
        None => false,
    }
}

/// What the builder needs of every input: buildable geometry whose own
/// interior nodes (from earlier builds) are already box-sound.
pub open spec fn build_ok(o: Object, t0: int, t1: int) -> bool {
    buildable(o, t0, t1) && bvh_box_sound(o, t0, t1)
}

/// The minimum box coordinate of an object on an axis (`0` x, `1` y,
/// else z), the sort key of construction.
pub open spec fn axis_key(o: Object, axis: int, t0: int, t1: int) -> int {
    match object_box(o, t0, t1) {
        Some(b) => comp(b.min, axis),
        None => 0,
    }
}

/// The leaves of a built hierarchy, left to right; any object that is
/// not an interior node is its own single leaf.
pub open spec fn leaves(o: Object) -> Seq<Object>
    decreases o,
{
    match o {
        Object::Bvh(n) => leaves(*n.left) + leaves(*n.right),
        _ => seq![o],
    }
}

/// Every interior node's box contains its children's boxes.
pub open spec fn bvh_box_sound(o: Object, t0: int, t1: int) -> bool
    decreases o,
{
    match o {
        Object::Bvh(n) => {
            &&& match (object_box(*n.left, t0, t1), object_box(*n.right, t0, t1)) {
                (Some(lb), Some(rb)) => box_contains_box(n.bounding_box, lb) && box_contains_box(
                    n.bounding_box,
                    rb,
                ),
                _ => false,
            }
            &&& bvh_box_sound(*n.left, t0, t1)
            &&& bvh_box_sound(*n.right, t0, t1)
        },
        _ => true,
    }
}

/// The leaves of every object of a list, in order: an interior node
/// (from an earlier build) contributes its own leaves, anything else
/// itself.
pub open spec fn all_leaves(objs: Seq<Object>) -> Seq<Object>
    decreases objs.len(),
{
    if objs.len() == 0 {
        Seq::empty()
    } else {
        leaves(objs[0]) + all_leaves(objs.drop_first())
    }
}

/// `all_leaves` distributes over concatenation.
proof fn lemma_all_leaves_concat(a: Seq<Object>, b: Seq<Object>)
    ensures
        all_leaves(a + b) == all_leaves(a) + all_leaves(b),
    decreases a.len(),
{
    if a.len() == 0 {
        assert(a + b =~= b);
        assert(all_leaves(a) + all_leaves(b) =~= all_leaves(b));
    } else {
        assert((a + b).drop_first() =~= a.drop_first() + b);
        assert((a + b)[0] == a[0]);
        lemma_all_leaves_concat(a.drop_first(), b);
        assert(leaves(a[0]) + (all_leaves(a.drop_first()) + all_leaves(b)) =~= (leaves(a[0])
            + all_leaves(a.drop_first())) + all_leaves(b));
    }
}

/// The leaves of a two-element list.
proof fn lemma_all_leaves_pair(x: Object, y: Object)
    ensures
        all_leaves(seq![x, y]) == leaves(x) + leaves(y),
{
    assert(seq![x, y].drop_first() =~= seq![y]);
    assert(seq![y].drop_first() =~= Seq::<Object>::empty());
    assert(all_leaves(Seq::<Object>::empty()) =~= Seq::<Object>::empty());
    assert(leaves(y) + Seq::<Object>::empty() =~= leaves(y));
    assert(all_leaves(seq![y]) =~= leaves(y));
    assert(all_leaves(seq![x, y]) =~= leaves(x) + leaves(y));
}

/// Swapping two adjacent list entries permutes the combined leaves.
proof fn lemma_all_leaves_swap(s: Seq<Object>, j: int)
    requires
        1 <= j < s.len(),
    ensures
        all_leaves(s.update(j - 1, s[j]).update(j, s[j - 1])).to_multiset() == all_leaves(
            s,
        ).to_multiset(),
{
    broadcast use vstd::seq_lib::group_to_multiset_ensures, vstd::multiset::group_multiset_axioms;

    let x = s[j - 1];
    let y = s[j];
    let p = s.take(j - 1);
    let q = s.skip(j + 1);
    let s2 = s.update(j - 1, y).update(j, x);
    assert(s =~= p + (seq![x, y] + q));
    assert(s2 =~= p + (seq![y, x] + q));
    lemma_all_leaves_concat(p, seq![x, y] + q);
    lemma_all_leaves_concat(seq![x, y], q);
    lemma_all_leaves_concat(p, seq![y, x] + q);
    lemma_all_leaves_concat(seq![y, x], q);
    lemma_all_leaves_pair(x, y);
    lemma_all_leaves_pair(y, x);
    vstd::seq_lib::lemma_multiset_commutative(leaves(x), leaves(y));
    vstd::seq_lib::lemma_multiset_commutative(leaves(y), leaves(x));
    vstd::seq_lib::lemma_multiset_commutative(leaves(x) + leaves(y), all_leaves(q));
    vstd::seq_lib::lemma_multiset_commutative(leaves(y) + leaves(x), all_leaves(q));
    vstd::seq_lib::lemma_multiset_commutative(all_leaves(p), all_leaves(seq![x, y] + q));
    vstd::seq_lib::lemma_multiset_commutative(all_leaves(p), all_leaves(seq![y, x] + q));
}

/// A list without interior nodes is its own leaf list.
pub proof fn lemma_all_leaves_of_primitives(objs: Seq<Object>)
    requires
        forall|i: int| 0 <= i < objs.len() ==> !(#[trigger] objs[i] is Bvh),
    ensures
        all_leaves(objs) == objs,
    decreases objs.len(),
{
    if objs.len() > 0 {
        assert(leaves(objs[0]) =~= seq![objs[0]]);
        assert(forall|i: int|
            0 <= i < objs.drop_first().len() ==> !(#[trigger] objs.drop_first()[i] is Bvh));
        lemma_all_leaves_of_primitives(objs.drop_first());
        assert(seq![objs[0]] + objs.drop_first() =~= objs);
    }
}

/// The minimum box coordinate of an object on an axis.
fn axis_key_exec(o: &Object, axis: u16, t0: Fx, t1: Fx) -> (r: i64)
    requires
        build_ok(*o, t0.raw as int, t1.raw as int),
        mag(t0.raw as int) <= T_LIMIT as int,
        mag(t1.raw as int) <= T_LIMIT as int,
    ensures
        r == axis_key(*o, axis as int, t0.raw as int, t1.raw as int),
{
    let b = match o.bounding_box(t0, t1) {
        Some(b) => b,
        None => {
            proof {
                assert(false);
            }
            unreached()
        },
    };
    if axis == 0 {
        b.min.x.raw
    } else if axis == 1 {
        b.min.y.raw
    } else {
        b.min.z.raw
    }
}

/// Sorts the objects by their minimum box coordinate on the axis, by
/// insertion: stable, preserving the collection as a multiset.
fn sort_by_axis(v: &mut Vec<Object>, axis: u16, t0: Fx, t1: Fx)
    requires
        forall|k: int|
            0 <= k < old(v)@.len() ==> build_ok(#[trigger] old(v)@[k], t0.raw as int, t1.raw as int),
        mag(t0.raw as int) <= T_LIMIT as int,
        mag(t1.raw as int) <= T_LIMIT as int,
    ensures
        final(v)@.len() == old(v)@.len(),
        final(v)@.to_multiset() == old(v)@.to_multiset(),
        all_leaves(final(v)@).to_multiset() == all_leaves(old(v)@).to_multiset(),
        scan_box(final(v)@, t0.raw as int, t1.raw as int) == scan_box(
            old(v)@,
            t0.raw as int,
            t1.raw as int,
        ),
        forall|k: int|
            0 <= k < final(v)@.len() ==> build_ok(
                #[trigger] final(v)@[k],
                t0.raw as int,
                t1.raw as int,
            ),
        forall|a: int, b: int|
            0 <= a < b < final(v)@.len() ==> axis_key(
                final(v)@[a],
                axis as int,
                t0.raw as int,
                t1.raw as int,
            ) <= axis_key(final(v)@[b], axis as int, t0.raw as int, t1.raw as int),
{
    broadcast use vstd::seq_lib::group_to_multiset_ensures, vstd::seq_lib::to_multiset_insert,
        vstd::multiset::group_multiset_axioms;

    let ghost tl = t0.raw as int;
    let ghost th = t1.raw as int;
    let mut i: usize = 1;
    while i < v.len()
        invariant
            1 <= i <= v@.len() || v@.len() == 0,
            v@.len() == old(v)@.len(),
            v@.to_multiset() == old(v)@.to_multiset(),
            all_leaves(v@).to_multiset() == all_leaves(old(v)@).to_multiset(),
            scan_box(v@, tl, th) == scan_box(old(v)@, tl, th),
            t0.raw as int == tl,
            t1.raw as int == th,
            mag(tl) <= T_LIMIT as int,
            mag(th) <= T_LIMIT as int,
            forall|k: int| 0 <= k < v@.len() ==> build_ok(#[trigger] v@[k], tl, th),
            forall|a: int, b: int|
                0 <= a < b < i && b < v@.len() ==> axis_key(v@[a], axis as int, tl, th)
                    <= axis_key(v@[b], axis as int, tl, th),
        decreases v@.len() - i,
    {
        let mut j: usize = i;
        while j > 0 && axis_key_exec(&v[j - 1], axis, t0, t1) > axis_key_exec(&v[j], axis, t0, t1)
            invariant
                0 <= j <= i < v@.len(),
                v@.len() == old(v)@.len(),
                v@.to_multiset() == old(v)@.to_multiset(),
                all_leaves(v@).to_multiset() == all_leaves(old(v)@).to_multiset(),
                scan_box(v@, tl, th) == scan_box(old(v)@, tl, th),
                t0.raw as int == tl,
                t1.raw as int == th,
                mag(tl) <= T_LIMIT as int,
                mag(th) <= T_LIMIT as int,
                forall|k: int| 0 <= k < v@.len() ==> build_ok(#[trigger] v@[k], tl, th),
                forall|a: int, b: int|
                    0 <= a < b <= i && b < v@.len() && b != j && a != j ==> axis_key(
                        v@[a],
                        axis as int,
                        tl,
                        th,
                    ) <= axis_key(v@[b], axis as int, tl, th),
                forall|b: int|
                    j < b <= i ==> axis_key(v@[j as int], axis as int, tl, th) <= axis_key(
                        v@[b],
                        axis as int,
                        tl,
                        th,
                    ),
            decreases j,
        {
            let ghost before = v@;
            let x = v.remove(j);
            v.insert(j - 1, x);
            proof {
                broadcast use vstd::seq_lib::group_to_multiset_ensures,
                    vstd::seq_lib::to_multiset_insert, vstd::multiset::group_multiset_axioms;

                assert(v@ =~= before.update(j - 1, before[j as int]).update(
                    j as int,
                    before[j as int - 1],
                ));
                assert(before.contains(before[j as int]));
                assert(before.to_multiset().count(before[j as int]) > 0);
                assert(v@.to_multiset() =~= before.to_multiset().remove(before[j as int]).insert(
                    before[j as int],
                ));
                assert(v@.to_multiset() =~= before.to_multiset());
                lemma_all_leaves_swap(before, j as int);
                lemma_scan_box_swap(before, tl, th, j as int);
            }
            j = j - 1;
        }
        i = i + 1;
    }
}

/// The box fold reads only the entries from its start index on.
proof fn lemma_fold_congruent(s1: Seq<Object>, s2: Seq<Object>, t0: int, t1: int, i: int, acc: Aabb)
    requires
        s1.len() == s2.len(),
        forall|k: int| i <= k < s1.len() ==> s1[k] == s2[k],
    ensures
        box_fold_rest(s1, t0, t1, i, acc) == box_fold_rest(s2, t0, t1, i, acc),
    decreases s1.len() - i,
{
    if i < s1.len() {
        match object_box(s1[i], t0, t1) {
            None => {},
            Some(bx) => {
                lemma_fold_congruent(s1, s2, t0, t1, i + 1, surround_spec(acc, bx));
            },
        }
    }
}

/// A union hoists out of the box fold's seed.
proof fn lemma_fold_hoist(s: Seq<Object>, t0: int, t1: int, i: int, a: Aabb, c: Aabb)
    ensures
        box_fold_rest(s, t0, t1, i, surround_spec(a, c)) == (match box_fold_rest(s, t0, t1, i, c) {
            None => None::<Aabb>,
            Some(f) => Some(surround_spec(a, f)),
        }),
    decreases s.len() - i,
{
    if i < s.len() {
        match object_box(s[i], t0, t1) {
            None => {},
            Some(bx) => {
                crate::aabb::lemma_surrounding_assoc(a, c, bx);
                lemma_fold_hoist(s, t0, t1, i + 1, a, surround_spec(c, bx));
            },
        }
    }
}

/// The box fold of a concatenation, entered past the first part, is the
/// fold of the second part alone.
proof fn lemma_fold_shift(a: Seq<Object>, b: Seq<Object>, t0: int, t1: int, i: int, acc: Aabb)
    requires
        0 <= i,
    ensures
        box_fold_rest(a + b, t0, t1, a.len() + i, acc) == box_fold_rest(b, t0, t1, i, acc),
    decreases b.len() - i,
{
    if i < b.len() {
        assert((a + b)[a.len() + i] == b[i]);
        match object_box(b[i], t0, t1) {
            None => {},
            Some(bx) => {
                lemma_fold_shift(a, b, t0, t1, i + 1, surround_spec(acc, bx));
            },
        }
    }
}

/// The box fold of a concatenation splits at the boundary.
proof fn lemma_fold_split(a: Seq<Object>, b: Seq<Object>, t0: int, t1: int, i: int, acc: Aabb)
    requires
        0 <= i <= a.len(),
    ensures
        box_fold_rest(a + b, t0, t1, i, acc) == (match box_fold_rest(a, t0, t1, i, acc) {
            None => None::<Aabb>,
            Some(fa) => box_fold_rest(b, t0, t1, 0, fa),
        }),
    decreases a.len() - i,
{
    if i == a.len() {
        lemma_fold_shift(a, b, t0, t1, 0, acc);
    } else {
        assert((a + b)[i] == a[i]);
        match object_box(a[i], t0, t1) {
            None => {},
            Some(bx) => {
                lemma_fold_split(a, b, t0, t1, i + 1, surround_spec(acc, bx));
            },
        }
    }
}

/// The whole-list box fold of a concatenation is the union of the two
/// parts' folds.
proof fn lemma_scan_box_concat(a: Seq<Object>, b: Seq<Object>, t0: int, t1: int)
    requires
        a.len() >= 1,
        b.len() >= 1,
    ensures
        scan_box(a + b, t0, t1) == (match (scan_box(a, t0, t1), scan_box(b, t0, t1)) {
            (Some(x), Some(y)) => Some(surround_spec(x, y)),
            _ => None::<Aabb>,
        }),
{
    assert((a + b)[0] == a[0]);
    match object_box(a[0], t0, t1) {
        None => {},
        Some(b0) => {
            lemma_fold_split(a, b, t0, t1, 1, b0);
            match box_fold_rest(a, t0, t1, 1, b0) {
                None => {},
                Some(fa) => {
                    match object_box(b[0], t0, t1) {
                        None => {},
                        Some(bb0) => {
                            lemma_fold_hoist(b, t0, t1, 1, fa, bb0);
                        },
                    }
                },
            }
        },
    }
}

/// Swapping two adjacent entries leaves the box fold unchanged: the
/// union is commutative and associative.
proof fn lemma_scan_box_swap(s: Seq<Object>, t0: int, t1: int, j: int)
    requires
        1 <= j < s.len(),
    ensures
        scan_box(s.update(j - 1, s[j]).update(j, s[j - 1]), t0, t1) == scan_box(s, t0, t1),
{
    let x = s[j - 1];
    let y = s[j];
    let s2 = s.update(j - 1, y).update(j, x);
    assert(s2.len() == s.len());
    if j == 1 {
        match (object_box(x, t0, t1), object_box(y, t0, t1)) {
            (Some(bx), Some(by)) => {
                if s.len() > 2 {
                    crate::aabb::lemma_surrounding_comm(bx, by);
                    lemma_fold_congruent(s, s2, t0, t1, 2, surround_spec(bx, by));
                    assert(box_fold_rest(s, t0, t1, 1, bx) == box_fold_rest(
                        s,
                        t0,
                        t1,
                        2,
                        surround_spec(bx, by),
                    ));
                    assert(box_fold_rest(s2, t0, t1, 1, by) == box_fold_rest(
                        s2,
                        t0,
                        t1,
                        2,
                        surround_spec(by, bx),
                    ));
                } else {
                    crate::aabb::lemma_surrounding_comm(bx, by);
                }
            },
            _ => {},
        }
    } else {
        match object_box(s[0], t0, t1) {
            None => {},
            Some(b0) => {
                lemma_swap_fold_rest(s, s2, t0, t1, 1, b0, j);
            },
        }
    }
}

/// The fold helper for the swap lemma: peel equal entries until the
/// swapped pair, reorder it by commutativity and associativity, then
/// use congruence on the equal tail.
proof fn lemma_swap_fold_rest(
    s: Seq<Object>,
    s2: Seq<Object>,
    t0: int,
    t1: int,
    i: int,
    acc: Aabb,
    j: int,
)
    requires
        1 <= i <= j - 1,
        j < s.len(),
        s2.len() == s.len(),
        forall|k: int| 0 <= k < s.len() && k != j - 1 && k != j ==> s[k] == #[trigger] s2[k],
        s2[j - 1] == s[j],
        s2[j] == s[j - 1],
    ensures
        box_fold_rest(s, t0, t1, i, acc) == box_fold_rest(s2, t0, t1, i, acc),
    decreases j - i,
{
    if i < j - 1 {
        assert(s2[i] == s[i]);
        match object_box(s[i], t0, t1) {
            None => {},
            Some(bx) => {
                lemma_swap_fold_rest(s, s2, t0, t1, i + 1, surround_spec(acc, bx), j);
            },
        }
    } else {
        let x = s[j - 1];
        let y = s[j];
        assert(s2[j - 1] == y && s2[j] == x);
        match (object_box(x, t0, t1), object_box(y, t0, t1)) {
            (Some(bx), Some(by)) => {
                assert(box_fold_rest(s, t0, t1, j - 1, acc) == box_fold_rest(
                    s,
                    t0,
                    t1,
                    j,
                    surround_spec(acc, bx),
                ));
                assert(box_fold_rest(s, t0, t1, j, surround_spec(acc, bx)) == box_fold_rest(
                    s,
                    t0,
                    t1,
                    j + 1,
                    surround_spec(surround_spec(acc, bx), by),
                ));
                assert(box_fold_rest(s2, t0, t1, j - 1, acc) == box_fold_rest(
                    s2,
                    t0,
                    t1,
                    j,
                    surround_spec(acc, by),
                ));
                assert(box_fold_rest(s2, t0, t1, j, surround_spec(acc, by)) == box_fold_rest(
                    s2,
                    t0,
                    t1,
                    j + 1,
                    surround_spec(surround_spec(acc, by), bx),
                ));
                crate::aabb::lemma_surrounding_comm(bx, by);
                crate::aabb::lemma_surrounding_assoc(acc, bx, by);
                crate::aabb::lemma_surrounding_assoc(acc, by, bx);
                assert(surround_spec(surround_spec(acc, bx), by) == surround_spec(
                    surround_spec(acc, by),
                    bx,
                ));
                lemma_fold_congruent(s, s2, t0, t1, j + 1, surround_spec(
                    surround_spec(acc, bx),
                    by,
                ));
            },
            (None, None) => {
                assert(box_fold_rest(s, t0, t1, j - 1, acc) is None);
                assert(box_fold_rest(s2, t0, t1, j - 1, acc) is None);
            },
            (None, Some(by)) => {
                assert(box_fold_rest(s, t0, t1, j - 1, acc) is None);
                assert(box_fold_rest(s2, t0, t1, j - 1, acc) == box_fold_rest(
                    s2,
                    t0,
                    t1,
                    j,
                    surround_spec(acc, by),
                ));
                assert(box_fold_rest(s2, t0, t1, j, surround_spec(acc, by)) is None);
            },
            (Some(bx), None) => {
                assert(box_fold_rest(s, t0, t1, j - 1, acc) == box_fold_rest(
                    s,
                    t0,
                    t1,
                    j,
                    surround_spec(acc, bx),
                ));
                assert(box_fold_rest(s, t0, t1, j, surround_spec(acc, bx)) is None);
                assert(box_fold_rest(s2, t0, t1, j - 1, acc) is None);
            },
        }
    }
}

impl Bvh {
    /// Builds the hierarchy over a non-empty object list: pick a split
    /// axis at random, sort by the minimum box coordinate on it, split
    /// at the midpoint and recurse; a singleton list returns its object
    /// directly.  The result holds exactly the input objects' leaves
    /// (each input that is itself an earlier build contributes its own
    /// leaves; see `lemma_all_leaves_of_primitives` for lists of
    /// primitives), its root box is exactly the pairwise-union fold of
    /// the input boxes, and every interior box contains its children's
    /// boxes.
    pub fn construct(mut objects: Vec<Object>, t0: Fx, t1: Fx) -> (r: Object)
        requires
            objects@.len() >= 1,
            forall|k: int|
                0 <= k < objects@.len() ==> build_ok(
                    #[trigger] objects@[k],
                    t0.raw as int,
                    t1.raw as int,
                ),
            mag(t0.raw as int) <= T_LIMIT as int,
            mag(t1.raw as int) <= T_LIMIT as int,
        ensures
            object_wf(r),
            build_ok(r, t0.raw as int, t1.raw as int),
            leaves(r).to_multiset() == all_leaves(objects@).to_multiset(),
            object_box(r, t0.raw as int, t1.raw as int) == scan_box(
                objects@,
                t0.raw as int,
                t1.raw as int,
            ),
        decreases objects@.len(),
    {
        broadcast use vstd::seq_lib::group_to_multiset_ensures;

        let ghost tl = t0.raw as int;
        let ghost th = t1.raw as int;
        let bits = random_u16();
        let axis = bits % 3;
        sort_by_axis(&mut objects, axis, t0, t1);
        let ghost sorted = objects@;
        if objects.len() == 1 {
            let o = objects.remove(0);
            proof {
                assert(sorted =~= seq![o]);
                assert(seq![o].drop_first() =~= Seq::<Object>::empty());
                assert(all_leaves(Seq::<Object>::empty()) =~= Seq::<Object>::empty());
                assert(leaves(o) + Seq::<Object>::empty() =~= leaves(o));
                assert(all_leaves(sorted) =~= leaves(o));
                match object_box(o, tl, th) {
                    Some(b0) => {
                        assert(box_fold_rest(seq![o], tl, th, 1, b0) == Some(b0));
                        assert(scan_box(sorted, tl, th) == Some(b0));
                    },
                    None => {
                        assert(false);
                    },
                }
            }
            o
        } else {
            let half = objects.len() / 2;
            let right_vec = objects.split_off(half);
            proof {
                assert(sorted =~= objects@ + right_vec@);
                lemma_all_leaves_concat(objects@, right_vec@);
                vstd::seq_lib::lemma_multiset_commutative(
                    all_leaves(objects@),
                    all_leaves(right_vec@),
                );
            }
            let ghost left_part = objects@;
            let ghost right_part = right_vec@;
            let left = Bvh::construct(objects, t0, t1);
            let right = Bvh::construct(right_vec, t0, t1);
            let lb = match left.bounding_box(t0, t1) {
                Some(b) => b,
                None => {
                    proof {
                        assert(false);
                    }
                    unreached()
                },
            };
            let rb = match right.bounding_box(t0, t1) {
                Some(b) => b,
                None => {
                    proof {
                        assert(false);
                    }
                    unreached()
                },
            };
            let bounding_box = Aabb::surrounding_box(lb, rb);
            let node = Object::Bvh(
                Bvh { left: Box::new(left), right: Box::new(right), bounding_box },
            );
            proof {
                broadcast use vstd::multiset::group_multiset_axioms;

                assert(leaves(node) == leaves(left) + leaves(right));
                vstd::seq_lib::lemma_multiset_commutative(leaves(left), leaves(right));
                assert(leaves(node).to_multiset() =~= all_leaves(sorted).to_multiset());
                lemma_scan_box_concat(left_part, right_part, tl, th);
                assert(scan_box(sorted, tl, th) == Some(surround_spec(lb, rb)));
                assert(object_box(node, tl, th) == Some(bounding_box));
            }
            node
        }
    }
}

// ---------------------------------------------------------------------
// What the query computes
// ---------------------------------------------------------------------

/// The nearer of two optional hits; on a tie the second wins, exactly as
/// an interior node resolves its children.
pub open spec fn closer_hit(
    x: Option<(HitRecord, Material)>,
    y: Option<(HitRecord, Material)>,
) -> Option<(HitRecord, Material)> {
    match (x, y) {
        (None, None) => None,
        (Some(pr), None) => Some(pr),
        (None, Some(pr)) => Some(pr),
        (Some((hl, ml)), Some((hr, mr))) => if hl.t.raw < hr.t.raw {
            Some((hl, ml))
        } else {
            Some((hr, mr))
        },
    }
}

/// The nearest hit over a list of objects, each queried over the full
/// parameter range.
pub open spec fn best_hit(objs: Seq<Object>, r: Ray, tmin: int, tmax: int) -> Option<
    (HitRecord, Material),
>
    decreases objs.len(),
{
    if objs.len() == 0 {
        None
    } else {
        closer_hit(best_hit(objs.drop_last(), r, tmin, tmax), object_hit(objs.last(), r, tmin, tmax))
    }
}

/// For one ray and range, every interior box test is sound: a node
/// whose box rejects the ray has no hit in either subtree.
///
/// This is the pruning assumption of the hierarchy.  It cannot be
/// derived from `bvh_box_sound` alone, because a computed hit parameter
/// is rounded and its point may graze a box face that the exact
/// rational slab test rejects, just as with floating-point arithmetic;
/// the query theorem below therefore takes it as a hypothesis.
pub open spec fn prune_sound(o: Object, r: Ray, tmin: int, tmax: int) -> bool
    decreases o,
{
    match o {
        Object::Bvh(n) => {
            &&& (!aabb_hit_spec(n.bounding_box, r, tmin, tmax) ==> object_hit(
                *n.left,
                r,
                tmin,
                tmax,
            ) is None && object_hit(*n.right, r, tmin, tmax) is None)
            &&& prune_sound(*n.left, r, tmin, tmax)
            &&& prune_sound(*n.right, r, tmin, tmax)
        },
        _ => true,
    }
}

/// `closer_hit` is associative.
proof fn lemma_closer_assoc(
    a: Option<(HitRecord, Material)>,
    b: Option<(HitRecord, Material)>,
    c: Option<(HitRecord, Material)>,
)
    ensures
        closer_hit(closer_hit(a, b), c) == closer_hit(a, closer_hit(b, c)),
{
}

/// The nearest-hit fold distributes over concatenation.
proof fn lemma_best_hit_concat(l: Seq<Object>, rr: Seq<Object>, r: Ray, tmin: int, tmax: int)
    ensures
        best_hit(l + rr, r, tmin, tmax) == closer_hit(
            best_hit(l, r, tmin, tmax),
            best_hit(rr, r, tmin, tmax),
        ),
    decreases rr.len(),
{
    if rr.len() == 0 {
        assert(l + rr =~= l);
    } else {
        let rr0 = rr.drop_last();
        let x = rr.last();
        lemma_best_hit_concat(l, rr0, r, tmin, tmax);
        assert((l + rr).drop_last() =~= l + rr0);
        assert((l + rr).last() == x);
        lemma_closer_assoc(
            best_hit(l, r, tmin, tmax),
            best_hit(rr0, r, tmin, tmax),
            object_hit(x, r, tmin, tmax),
        );
    }
}

/// The query theorem: wherever the box tests are sound for a ray, the
/// hierarchy query computes exactly the nearest hit over its leaves,
/// all queried over the same parameter range — what a brute-force pass
/// over the leaves computes.
/// One interior node's query equals the fold over its children's
/// leaves, given the children already agree with their own leaf folds.
#[verifier::rlimit(100)]
#[verifier::spinoff_prover]
proof fn lemma_query_node(n: Bvh, r: Ray, tmin: int, tmax: int)
    requires
        prune_sound(Object::Bvh(n), r, tmin, tmax),
        object_hit(*n.left, r, tmin, tmax) == best_hit(leaves(*n.left), r, tmin, tmax),
        object_hit(*n.right, r, tmin, tmax) == best_hit(leaves(*n.right), r, tmin, tmax),
        best_hit(leaves(*n.left) + leaves(*n.right), r, tmin, tmax) == closer_hit(
            best_hit(leaves(*n.left), r, tmin, tmax),
            best_hit(leaves(*n.right), r, tmin, tmax),
        ),
    ensures
        object_hit(Object::Bvh(n), r, tmin, tmax) == best_hit(
            leaves(Object::Bvh(n)),
            r,
            tmin,
            tmax,
        ),
{
    let o = Object::Bvh(n);
    assert(leaves(o) == leaves(*n.left) + leaves(*n.right));
    if aabb_hit_spec(n.bounding_box, r, tmin, tmax) {
        assert(object_hit(o, r, tmin, tmax) == closer_hit(
            object_hit(*n.left, r, tmin, tmax),
            object_hit(*n.right, r, tmin, tmax),
        ));
    } else {
        assert(object_hit(*n.left, r, tmin, tmax) is None);
        assert(object_hit(*n.right, r, tmin, tmax) is None);
        assert(object_hit(o, r, tmin, tmax) is None);
    }
}

/// The query theorem: wherever the box tests are sound for a ray, the
/// hierarchy query computes exactly the nearest hit over its leaves,
/// all queried over the same parameter range - what a brute-force pass
/// over the leaves computes.
#[verifier::rlimit(100)]
#[verifier::spinoff_prover]
pub proof fn lemma_bvh_query_counts_leaves(o: Object, r: Ray, tmin: int, tmax: int)
    requires
        prune_sound(o, r, tmin, tmax),
    ensures
        object_hit(o, r, tmin, tmax) == best_hit(leaves(o), r, tmin, tmax),
    decreases o,
{
    match o {
        Object::Bvh(n) => {
            lemma_bvh_query_counts_leaves(*n.left, r, tmin, tmax);
            lemma_bvh_query_counts_leaves(*n.right, r, tmin, tmax);
            lemma_best_hit_concat(leaves(*n.left), leaves(*n.right), r, tmin, tmax);
            lemma_query_node(n, r, tmin, tmax);
            assert(o == Object::Bvh(n));
            assert(object_hit(o, r, tmin, tmax) == best_hit(leaves(o), r, tmin, tmax));
        },
        _ => {
            assert(leaves(o) =~= seq![o]);
            assert(leaves(o).drop_last() =~= Seq::<Object>::empty());
            assert(leaves(o).last() == o);
            assert(best_hit(Seq::<Object>::empty(), r, tmin, tmax) is None);
            assert(best_hit(leaves(o), r, tmin, tmax) == closer_hit(
                None,
                object_hit(o, r, tmin, tmax),
            ));
            assert(closer_hit(None, object_hit(o, r, tmin, tmax)) == object_hit(o, r, tmin, tmax));
        },
    }
}

// ---------------------------------------------------------------------
// The narrowed scan over sphere sets
// ---------------------------------------------------------------------

/// The parameter of an optional hit.
pub open spec fn hit_t(res: Option<(HitRecord, Material)>) -> Option<int> {
    match res {
        None => None,
        Some((h, _)) => Some(h.t.raw as int),
    }
}

/// The nearer of two optional parameters.
pub open spec fn nearer_t(a: Option<int>, b: Option<int>) -> Option<int> {
    match (a, b) {
        (None, None) => None,
        (Some(x), None) => Some(x),
        (None, Some(y)) => Some(y),
        (Some(x), Some(y)) => Some(if x < y { x } else { y }),
    }
}

/// `closer_hit` selects the nearer parameter.
proof fn lemma_closer_t(x: Option<(HitRecord, Material)>, y: Option<(HitRecord, Material)>)
    ensures
        hit_t(closer_hit(x, y)) == nearer_t(hit_t(x), hit_t(y)),
{
}

/// A list of sphere primitives.
pub open spec fn all_spheres(objs: Seq<Object>) -> bool {
    forall|i: int| 0 <= i < objs.len() ==> objs[i] is Sphere
}

/// How a sphere's hit responds to a tightened far bound: a full-range
/// miss stays a miss, and a full-range hit survives exactly when its
/// parameter lands before the new bound.
#[verifier::rlimit(100)]
#[verifier::spinoff_prover]
proof fn lemma_sphere_hit_narrow(o: Object, r: Ray, tmin: int, tmax: int, tmax2: int)
    requires
        o is Sphere,
        i64::MIN <= tmin,
        tmax <= i64::MAX,
        tmin <= tmax2 <= tmax,
    ensures
        match object_hit(o, r, tmin, tmax) {
            None => object_hit(o, r, tmin, tmax2) is None,
            Some((h, m)) => tmin < h.t.raw < tmax && (if h.t.raw < tmax2 {
                object_hit(o, r, tmin, tmax2) == Some((h, m))
            } else {
                object_hit(o, r, tmin, tmax2) is None
            }),
        },
{
    match o {
        Object::Sphere(s) => {
            let c = s.center;
            let rad = s.radius.raw as int;
            let full = crate::object::sphere_hit_spec(c, rad, r, tmin, tmax);
            let nar = crate::object::sphere_hit_spec(c, rad, r, tmin, tmax2);
            assert(object_hit(o, r, tmin, tmax) == (match full {
                None => None::<(HitRecord, Material)>,
                Some(h) => Some((h, s.material)),
            }));
            assert(object_hit(o, r, tmin, tmax2) == (match nar {
                None => None::<(HitRecord, Material)>,
                Some(h) => Some((h, s.material)),
            }));
            let ocx = r.a.x.raw - c.x.raw;
            let ocy = r.a.y.raw - c.y.raw;
            let ocz = r.a.z.raw - c.z.raw;
            let qa = crate::vector3::dot_wide(r.b, r.b);
            let qb = ocx * r.b.x.raw + ocy * r.b.y.raw + ocz * r.b.z.raw;
            let qc = ocx * ocx + ocy * ocy + ocz * ocz - rad * rad;
            let disc = qb * qb - qa * qc;
            if qa > 0 && disc > 0 {
                let sq = crate::fixed::sqrt_floor(disc);
                crate::fixed::lemma_sqrt_floor(disc);
                let t1 = crate::fixed::tdiv((-qb - sq) * crate::fixed::SCALE, qa);
                let t2 = crate::fixed::tdiv((-qb + sq) * crate::fixed::SCALE, qa);
                crate::fixed::lemma_tdiv_mono(
                    (-qb - sq) * crate::fixed::SCALE,
                    (-qb + sq) * crate::fixed::SCALE,
                    qa,
                );
                assert(t1 <= t2);
                let sel_f = if t1 >= tmax || t1 <= tmin {
                    t2
                } else {
                    t1
                };
                let sel_n = if t1 >= tmax2 || t1 <= tmin {
                    t2
                } else {
                    t1
                };
                assert(full == (if tmin < sel_f && sel_f < tmax {
                    crate::object::sphere_record(c, rad, r, sel_f)
                } else {
                    None::<HitRecord>
                }));
                assert(nar == (if tmin < sel_n && sel_n < tmax2 {
                    crate::object::sphere_record(c, rad, r, sel_n)
                } else {
                    None::<HitRecord>
                }));
                if tmin < sel_f && sel_f < tmax {
                    match crate::object::sphere_record(c, rad, r, sel_f) {
                        Some(h) => {
                            assert(h.t.raw == sel_f as i64);
                            assert(tmin < h.t.raw < tmax);
                            if sel_f < tmax2 {
                                // The same root is selected under the
                                // tighter bound.
                                assert(sel_n == sel_f);
                                assert(nar == Some(h));
                            } else {
                                // The surviving root now lies at or past
                                // the bound; so does the larger one.
                                assert(sel_n == t2 || sel_n == sel_f);
                                assert(sel_n >= tmax2);
                                assert(nar is None);
                            }
                        },
                        None => {
                            if sel_f < tmax2 {
                                assert(sel_n == sel_f);
                            } else {
                                assert(sel_n >= tmax2);
                            }
                            assert(nar is None);
                        },
                    }
                } else {
                    // No root in the full range: none in the tighter one.
                    if !(tmin < sel_n && sel_n < tmax2) {
                        assert(nar is None);
                    } else {
                        assert(sel_n == t2);
                        assert(sel_f == t2 || sel_f == t1);
                        assert(false);
                    }
                }
            }
        },
        _ => {},
    }
}

/// Narrowing the far bound of the nearest-hit fold over spheres: the
/// fold keeps exactly the full-range parameter when it lands before the
/// new bound, and nothing otherwise.
proof fn lemma_best_narrow(objs: Seq<Object>, r: Ray, tmin: int, tmax: int, tmax2: int)
    requires
        all_spheres(objs),
        i64::MIN <= tmin,
        tmax <= i64::MAX,
        tmin <= tmax2 <= tmax,
    ensures
        hit_t(best_hit(objs, r, tmin, tmax2)) == (match hit_t(best_hit(objs, r, tmin, tmax)) {
            Some(t) => if t < tmax2 {
                Some(t)
            } else {
                None::<int>
            },
            None => None::<int>,
        }),
    decreases objs.len(),
{
    if objs.len() > 0 {
        let init = objs.drop_last();
        let last = objs.last();
        assert(all_spheres(init)) by {
            assert(forall|i: int| 0 <= i < init.len() ==> init[i] == objs[i]);
        }
        lemma_best_narrow(init, r, tmin, tmax, tmax2);
        lemma_sphere_hit_narrow(last, r, tmin, tmax, tmax2);
        lemma_closer_t(best_hit(init, r, tmin, tmax2), object_hit(last, r, tmin, tmax2));
        lemma_closer_t(best_hit(init, r, tmin, tmax), object_hit(last, r, tmin, tmax));
    }
}

/// For a set of spheres, the front-to-back scan that narrows its far
/// bound to the best parameter so far finds exactly the parameter of
/// the nearest-hit fold over the full range: the brute-force answer.
pub proof fn lemma_scan_matches_best(objs: Seq<Object>, r: Ray, tmin: int, tmax: int)
    requires
        all_spheres(objs),
        i64::MIN <= tmin,
        tmax <= i64::MAX,
        tmin <= tmax,
    ensures
        hit_t(crate::scene::scan_hit(objs, r, tmin, tmax)) == hit_t(
            best_hit(objs, r, tmin, tmax),
        ),
    decreases objs.len(),
{
    if objs.len() > 0 {
        let o = objs[0];
        let rest = objs.drop_first();
        assert(all_spheres(rest)) by {
            assert(forall|i: int| 0 <= i < rest.len() ==> rest[i] == objs[i + 1]);
        }
        assert(objs =~= seq![o] + rest);
        lemma_best_hit_concat(seq![o], rest, r, tmin, tmax);
        assert(seq![o].drop_last() =~= Seq::<Object>::empty());
        assert(seq![o].last() == o);
        assert(best_hit(Seq::<Object>::empty(), r, tmin, tmax) is None);
        assert(best_hit(seq![o], r, tmin, tmax) == closer_hit(
            None,
            object_hit(o, r, tmin, tmax),
        ));
        match object_hit(o, r, tmin, tmax) {
            None => {
                lemma_scan_matches_best(rest, r, tmin, tmax);
            },
            Some((h, m)) => {
                lemma_sphere_hit_narrow(o, r, tmin, tmax, tmax);
                assert(tmin < h.t.raw < tmax);
                lemma_scan_matches_best(rest, r, tmin, h.t.raw as int);
                lemma_best_narrow(rest, r, tmin, tmax, h.t.raw as int);
                lemma_closer_t(object_hit(o, r, tmin, tmax), best_hit(rest, r, tmin, tmax));
                assert(crate::scene::scan_hit(objs, r, tmin, tmax) == (match crate::scene::scan_hit(
                    rest,
                    r,
                    tmin,
                    h.t.raw as int,
                ) {
                    None => Some((h, m)),
                    Some(pr) => Some(pr),
                }));
            },
        }
    }
}

/// The hierarchy query against the brute-force linear scan: over sphere
/// leaves, wherever the box tests are sound for the ray, both report
/// the same hit-or-miss answer with the same parameter.
pub proof fn lemma_bvh_matches_linear_scan(o: Object, r: Ray, tmin: int, tmax: int)
    requires
        prune_sound(o, r, tmin, tmax),
        all_spheres(leaves(o)),
        i64::MIN <= tmin,
        tmax <= i64::MAX,
        tmin <= tmax,
    ensures
        hit_t(object_hit(o, r, tmin, tmax)) == hit_t(
            crate::scene::scan_hit(leaves(o), r, tmin, tmax),
        ),
{
    lemma_bvh_query_counts_leaves(o, r, tmin, tmax);
    lemma_scan_matches_best(leaves(o), r, tmin, tmax);
}

} // verus!
