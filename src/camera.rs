use crate::entity::Entity;
use vstd::prelude::*;

verus! {

/// The active camera is usable when it is one of the entities that carry
/// both a camera and a world transform.
pub open spec fn active_usable(active: Option<Entity>, cameras: Seq<Entity>) -> bool {
    match active {
        Some(a) => cameras.contains(a),
        None => false,
    }
}

/// Picks the camera of a frame among `cameras`, the entities that carry a
/// camera and a world transform, in storage order: the active camera when
/// it is among them, else the first of them. `None` means that no camera
/// exists and the default 2D camera at the identity transform is used.
pub fn select_camera(active: Option<Entity>, cameras: &Vec<Entity>) -> (r: Option<usize>)
    ensures
        active_usable(active, cameras@) ==> r.is_some() && cameras@[r.unwrap() as int]
            == active.unwrap(),
        !active_usable(active, cameras@) && cameras@.len() > 0 ==> r == Some(0usize),
        !active_usable(active, cameras@) && cameras@.len() == 0 ==> r.is_none(),
        r.is_some() ==> r.unwrap() < cameras@.len(),
{
    match active {
        Some(a) => {
            let mut i: usize = 0;
            while i < cameras.len()
                invariant
                    i <= cameras@.len(),
                    active == Some(a),
                    forall|j: int| 0 <= j < i ==> cameras@[j] != a,
                decreases cameras@.len() - i,
            {
                if cameras[i] == a {
                    return Some(i);
                }
                i = i + 1;
            }
        },
        None => {},
    }
    if cameras.len() > 0 {
        Some(0)
    } else {
        None
    }
}

} // verus!
