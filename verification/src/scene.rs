//! The scene: an object list with its camera, and the single
//! intersection entry point.

use vstd::prelude::*;

use crate::aabb::{surround_spec, Aabb, T_LIMIT};
use crate::camera::{camera_wf, Camera};
use crate::fixed::{mag, Fx};
use crate::materials::{material_wf, Material};
use crate::object::{hit_record_ok, object_box, object_hit, object_wf, ray_ok, t_range_ok,
    HitRecord, Object};
use crate::ray::Ray;

verus! {

/// A scene: the objects and the camera that renders them.
#[derive(Debug)]
pub struct Scene {
    pub objects: Vec<Object>,
    pub camera: Camera,
}

/// Every object in range, the camera in range.
pub open spec fn scene_wf(s: Scene) -> bool {
    &&& forall|i: int| 0 <= i < s.objects@.len() ==> object_wf(#[trigger] s.objects@[i])
    &&& camera_wf(s.camera)
}

/// The nearest hit of an object list, scanned front to back while
/// narrowing the far bound to the best parameter so far.
pub open spec fn scan_hit(objs: Seq<Object>, r: Ray, tmin: int, tmax: int) -> Option<
    (HitRecord, Material),
>
    decreases objs.len(),
{
    if objs.len() == 0 {
        None
    } else {
        match object_hit(objs[0], r, tmin, tmax) {
            None => scan_hit(objs.drop_first(), r, tmin, tmax),
            Some((h, m)) => match scan_hit(objs.drop_first(), r, tmin, h.t.raw as int) {
                None => Some((h, m)),
                Some(pr) => Some(pr),
            },
        }
    }
}

/// The fold of all object boxes, front to back, when every object has
/// one: the first box, then the pairwise union with each following box.
pub open spec fn scan_box(objs: Seq<Object>, t0: int, t1: int) -> Option<Aabb> {
    if objs.len() == 0 {
        None
    } else {
        match object_box(objs[0], t0, t1) {
            None => None,
            Some(b0) => box_fold_rest(objs, t0, t1, 1, b0),
        }
    }
}

impl Scene {
    /// Builds a scene with the standard camera at the given aspect
    /// ratio.
    pub fn from_objects(objects: Vec<Object>, aspect_r: Fx) -> (r: Scene)
        requires
            forall|i: int| 0 <= i < objects@.len() ==> object_wf(#[trigger] objects@[i]),
            0 <= aspect_r.raw <= 4 * crate::fixed::SCALE,
        ensures
            r.objects == objects,
            scene_wf(r),
    {
        let camera = Camera::default(aspect_r);
        Scene { objects, camera }
    }

    /// Builds a scene around an explicit camera.
    pub fn from_objects_and_cam(objects: Vec<Object>, camera: Camera) -> (r: Scene)
        requires
            forall|i: int| 0 <= i < objects@.len() ==> object_wf(#[trigger] objects@[i]),
            camera_wf(camera),
        ensures
            r.objects == objects,
            r.camera == camera,
            scene_wf(r),
    {
        Scene { objects, camera }
    }

    /// The nearest intersection along the ray, over all objects.
    pub fn hit(&self, r: Ray, t_min: Fx, t_max: Fx) -> (res: Option<(HitRecord, Material)>)
        requires
            scene_wf(*self),
            ray_ok(r),
            mag(r.time.raw as int) <= T_LIMIT as int,
            t_range_ok(t_min.raw as int, t_max.raw as int),
        ensures
            res == scan_hit(self.objects@, r, t_min.raw as int, t_max.raw as int),
            res matches Some((h, m)) ==> hit_record_ok(h, t_min.raw as int, t_max.raw as int)
                && material_wf(m),
    {
        let ghost tmin = t_min.raw as int;
        let ghost tmax = t_max.raw as int;
        let objs = &self.objects;
        let mut best: Option<(HitRecord, Material)> = None;
        let mut i: usize = 0;
        proof {
            assert(objs@.skip(0) =~= objs@);
        }
        while i < objs.len()
            invariant
                objs@ == self.objects@,
                0 <= i <= objs@.len(),
                forall|j: int| 0 <= j < objs@.len() ==> object_wf(#[trigger] objs@[j]),
                ray_ok(r),
                mag(r.time.raw as int) <= T_LIMIT as int,
                t_range_ok(tmin, tmax),
                t_min.raw == tmin,
                t_max.raw == tmax,
                match best {
                    None => scan_hit(objs@, r, tmin, tmax) == scan_hit(
                        objs@.skip(i as int),
                        r,
                        tmin,
                        tmax,
                    ),
                    Some((h, m)) => hit_record_ok(h, tmin, tmax) && material_wf(m) && scan_hit(
                        objs@,
                        r,
                        tmin,
                        tmax,
                    ) == match scan_hit(objs@.skip(i as int), r, tmin, h.t.raw as int) {
                        None => Some((h, m)),
                        Some(pr) => Some(pr),
                    },
                },
            decreases objs@.len() - i,
        {
            let ghost pre = objs@.skip(i as int);
            proof {
                assert(pre[0] == objs@[i as int]);
                assert(pre.drop_first() =~= objs@.skip(i as int + 1));
            }
            let cur_max = match best {
                None => t_max,
                Some((h, _)) => h.t,
            };
            let step = objs[i].hit(r, t_min, cur_max);
            match step {
                None => (),
                Some((h2, m2)) => {
                    best = Some((h2, m2));
                },
            }
            i = i + 1;
        }
        proof {
            assert(objs@.skip(i as int).len() == 0);
            match best {
                Some((h, _m)) => {
                    assert(scan_hit(objs@.skip(i as int), r, tmin, h.t.raw as int) is None);
                },
                None => {},
            }
        }
        best
    }

    /// The box around the whole scene over a time interval, when every
    /// object has one.
    pub fn bounding_box(&self, t0: Fx, t1: Fx) -> (res: Option<Aabb>)
        requires
            scene_wf(*self),
            mag(t0.raw as int) <= T_LIMIT as int,
            mag(t1.raw as int) <= T_LIMIT as int,
        ensures
            res == scan_box(self.objects@, t0.raw as int, t1.raw as int),
    {
        let objs = &self.objects;
        if objs.len() == 0 {
            return None;
        }
        let first = objs[0].bounding_box(t0, t1);
        let mut ret: Aabb = match first {
            None => {
                return None;
            },
            Some(bx) => bx,
        };
        let mut i: usize = 1;
        while i < objs.len()
            invariant
                objs@ == self.objects@,
                1 <= i <= objs@.len(),
                forall|j: int| 0 <= j < objs@.len() ==> object_wf(#[trigger] objs@[j]),
                mag(t0.raw as int) <= T_LIMIT as int,
                mag(t1.raw as int) <= T_LIMIT as int,
                scan_box(objs@, t0.raw as int, t1.raw as int) == box_fold_rest(
                    objs@,
                    t0.raw as int,
                    t1.raw as int,
                    i as int,
                    ret,
                ),
            decreases objs@.len() - i,
        {
            let step = objs[i].bounding_box(t0, t1);
            match step {
                None => {
                    proof {
                        assert(box_fold_rest(objs@, t0.raw as int, t1.raw as int, i as int, ret)
                            is None);
                    }
                    return None;
                },
                Some(bx) => {
                    ret = Aabb::surrounding_box(ret, bx);
                },
            }
            i = i + 1;
        }
        Some(ret)
    }
}

/// What remains of the box fold once a prefix has been absorbed into the
/// accumulator.
pub open spec fn box_fold_rest(objs: Seq<Object>, t0: int, t1: int, i: int, acc: Aabb) -> Option<
    Aabb,
>
    decreases objs.len() - i,
{
    if i >= objs.len() {
        Some(acc)
    } else {
        match object_box(objs[i], t0, t1) {
            None => None,
            Some(bx) => box_fold_rest(objs, t0, t1, i + 1, surround_spec(acc, bx)),
        }
    }
}

} // verus!
