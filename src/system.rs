use crate::bitset::{bits_of, bitset_add, bitset_clear, bitset_contains, bitset_new, MAX_INDEX};
use crate::entity::Entity;
use crate::order::{back_to_front, insert_by_distance, Internals};
use hibitset::BitSet;
use vstd::prelude::*;

verus! {

/// What the scan knows of one entity that has a world transform: its
/// markers, whether its bounding sphere passed the frustum test, and the
/// order key of its squared distance to the camera.
#[derive(Clone, Copy, Debug, PartialEq, Eq, Structural)]
pub struct Candidate {
    pub entity: Entity,
    pub hidden: bool,
    pub hidden_propagate: bool,
    pub in_frustum: bool,
    pub transparent: bool,
    pub camera_distance: u32,
}

/// Shared per-frame result: entities drawn in any order, and entities
/// drawn in the given (back-to-front) order.
pub struct Visibility {
    pub visible_unordered: BitSet,
    pub visible_ordered: Vec<Entity>,
}

/// Culls, classifies and sorts the scanned entities each frame. The two
/// buffers are scratch space kept between frames to avoid reallocation.
pub struct VisibilitySortingSystem {
    centroids: Vec<Internals>,
    transparent: Vec<Internals>,
}

/// A candidate is kept when neither hidden marker is set and its sphere is
/// inside the frustum.
pub open spec fn survives(c: Candidate) -> bool {
    !c.hidden && !c.hidden_propagate && c.in_frustum
}

pub open spec fn record_of(c: Candidate) -> Internals {
    Internals { entity: c.entity, transparent: c.transparent, camera_distance: c.camera_distance }
}

/// The records of the kept candidates, in scan order.
pub open spec fn survivors(cs: Seq<Candidate>) -> Seq<Internals>
    decreases cs.len(),
{
    if cs.len() == 0 {
        Seq::empty()
    } else if survives(cs.last()) {
        survivors(cs.drop_last()).push(record_of(cs.last()))
    } else {
        survivors(cs.drop_last())
    }
}

/// The transparent records of `s`, in order.
pub open spec fn transparent_of(s: Seq<Internals>) -> Seq<Internals>
    decreases s.len(),
{
    if s.len() == 0 {
        Seq::empty()
    } else if s.last().transparent {
        transparent_of(s.drop_last()).push(s.last())
    } else {
        transparent_of(s.drop_last())
    }
}

/// The ids of the opaque records of `s`.
pub open spec fn opaque_ids(s: Seq<Internals>) -> Set<u32> {
    Set::new(|id: u32| exists|i: int| 0 <= i < s.len() && !s[i].transparent && #[trigger] s[i].entity.id == id)
}

pub open spec fn entities_of(s: Seq<Internals>) -> Seq<Entity> {
    s.map_values(|r: Internals| r.entity)
}

/// The unordered output of a frame over the scanned candidates.
pub open spec fn unordered_of(cs: Seq<Candidate>) -> Set<u32> {
    opaque_ids(survivors(cs))
}

/// The ordered output of a frame: kept transparent entities, farthest first.
pub open spec fn ordered_of(cs: Seq<Candidate>) -> Seq<Entity> {
    entities_of(back_to_front(transparent_of(survivors(cs))))
}

/// Every candidate's index can be stored in the unordered set.
pub open spec fn indices_in_range(cs: Seq<Candidate>) -> bool {
    forall|i: int| 0 <= i < cs.len() ==> #[trigger] cs[i].entity.id < MAX_INDEX
}

impl Visibility {
    pub open spec fn unordered(&self) -> Set<u32> {
        bits_of(self.visible_unordered)
    }

    pub fn new() -> (r: Visibility)
        ensures
            r.unordered() == Set::<u32>::empty(),
            r.visible_ordered@ == Seq::<Entity>::empty(),
    {
        Visibility { visible_unordered: bitset_new(), visible_ordered: Vec::new() }
    }

    /// Whether the entity index is in the unordered set.
    pub fn is_unordered(&self, id: u32) -> (r: bool)
        ensures
            r == self.unordered().contains(id),
    {
        bitset_contains(&self.visible_unordered, id)
    }
}

impl Default for Visibility {
    fn default() -> (r: Visibility)
        ensures
            r.unordered() == Set::<u32>::empty(),
            r.visible_ordered@ == Seq::<Entity>::empty(),
    {
        Visibility::new()
    }
}

proof fn lemma_opaque_ids_push(s: Seq<Internals>, r: Internals)
    ensures
        opaque_ids(s.push(r)) == (if r.transparent {
            opaque_ids(s)
        } else {
            opaque_ids(s).insert(r.entity.id)
        }),
{
    let t = s.push(r);
    let expected = if r.transparent { opaque_ids(s) } else { opaque_ids(s).insert(r.entity.id) };
    assert forall|id: u32| opaque_ids(t).contains(id) == expected.contains(id) by {
        if opaque_ids(t).contains(id) {
            let i = choose|i: int| 0 <= i < t.len() && !t[i].transparent && #[trigger] t[i].entity.id == id;
            if i < s.len() {
                assert(s[i] == t[i]);
            }
        }
        if opaque_ids(s).contains(id) {
            let i = choose|i: int| 0 <= i < s.len() && !s[i].transparent && #[trigger] s[i].entity.id == id;
            assert(t[i] == s[i]);
        }
        if !r.transparent && id == r.entity.id {
            assert(t[s.len() as int] == r);
        }
    }
    assert(opaque_ids(t) =~= expected);
}

impl VisibilitySortingSystem {
    /// The scratch buffers last filled by `run`.
    pub closed spec fn kept(&self) -> Seq<Internals> {
        self.centroids@
    }

    pub closed spec fn sorted(&self) -> Seq<Internals> {
        self.transparent@
    }

    /// Creates the system with empty scratch buffers.
    pub fn new() -> (r: VisibilitySortingSystem)
        ensures
            r.kept() == Seq::<Internals>::empty(),
            r.sorted() == Seq::<Internals>::empty(),
    {
        VisibilitySortingSystem { centroids: Vec::new(), transparent: Vec::new() }
    }

    /// One frame: keeps the candidates that are not hidden and passed the
    /// frustum test, publishes the ids of the opaque ones as the unordered
    /// set and the transparent ones farthest first as the ordered list.
    /// The result depends on the candidates alone, not on the previous
    /// contents of `visibility` or of the scratch buffers.
    pub fn run(&mut self, visibility: &mut Visibility, candidates: &Vec<Candidate>)
        requires
            indices_in_range(candidates@),
        ensures
            final(visibility).unordered() == unordered_of(candidates@),
            final(visibility).visible_ordered@ == ordered_of(candidates@),
            final(self).kept() == survivors(candidates@),
            final(self).sorted() == back_to_front(transparent_of(survivors(candidates@))),
    {
        let ghost cs = candidates@;
        self.centroids.clear();
        let mut i: usize = 0;
        while i < candidates.len()
            invariant
                i <= cs.len(),
                cs == candidates@,
                indices_in_range(cs),
                self.centroids@ == survivors(cs.take(i as int)),
                forall|k: int| 0 <= k < self.centroids@.len() ==> #[trigger] self.centroids@[k].entity.id < MAX_INDEX,
            decreases cs.len() - i,
        {
            let c = candidates[i];
            proof {
                assert(cs.take(i + 1).drop_last() =~= cs.take(i as int));
                assert(cs.take(i + 1).last() == c);
            }
            if !c.hidden && !c.hidden_propagate && c.in_frustum {
                self.centroids.push(Internals {
                    entity: c.entity,
                    transparent: c.transparent,
                    camera_distance: c.camera_distance,
                });
            }
            i = i + 1;
        }
        proof {
            assert(cs.take(cs.len() as int) =~= cs);
        }
        let ghost kept = self.centroids@;

        self.transparent.clear();
        let mut j: usize = 0;
        while j < self.centroids.len()
            invariant
                j <= kept.len(),
                self.centroids@ == kept,
                self.transparent@ == back_to_front(transparent_of(kept.take(j as int))),
            decreases kept.len() - j,
        {
            let r = self.centroids[j];
            proof {
                assert(kept.take(j + 1).drop_last() =~= kept.take(j as int));
                assert(kept.take(j + 1).last() == r);
                let t = transparent_of(kept.take(j as int));
                if r.transparent {
                    assert(t.push(r).drop_last() =~= t);
                }
            }
            if r.transparent {
                insert_by_distance(&mut self.transparent, r);
            }
            j = j + 1;
        }
        proof {
            assert(kept.take(kept.len() as int) =~= kept);
        }

        bitset_clear(&mut visibility.visible_unordered);
        let mut k: usize = 0;
        while k < self.centroids.len()
            invariant
                k <= kept.len(),
                self.centroids@ == kept,
                forall|m: int| 0 <= m < kept.len() ==> #[trigger] kept[m].entity.id < MAX_INDEX,
                bits_of(visibility.visible_unordered) == opaque_ids(kept.take(k as int)),
            decreases kept.len() - k,
        {
            let r = self.centroids[k];
            proof {
                assert(kept.take(k + 1) =~= kept.take(k as int).push(r));
                lemma_opaque_ids_push(kept.take(k as int), r);
            }
            if !r.transparent {
                bitset_add(&mut visibility.visible_unordered, r.entity.id);
            }
            k = k + 1;
        }
        proof {
            assert(kept.take(kept.len() as int) =~= kept);
        }

        visibility.visible_ordered.clear();
        let mut m: usize = 0;
        while m < self.transparent.len()
            invariant
                m <= self.transparent@.len(),
                bits_of(visibility.visible_unordered) == opaque_ids(kept),
                visibility.visible_ordered@ == entities_of(self.transparent@.take(m as int)),
            decreases self.transparent@.len() - m,
        {
            visibility.visible_ordered.push(self.transparent[m].entity);
            proof {
                assert(entities_of(self.transparent@.take(m + 1)) =~= entities_of(self.transparent@.take(m as int)).push(self.transparent@[m as int].entity));
            }
            m = m + 1;
        }
        proof {
            assert(self.transparent@.take(self.transparent@.len() as int) =~= self.transparent@);
        }
    }
}

} // verus!
