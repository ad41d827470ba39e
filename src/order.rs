use crate::entity::Entity;
use vstd::prelude::*;

verus! {

/// What the system keeps of an entity that passed the cull test.
#[derive(Clone, Copy, Debug, PartialEq, Eq, Structural)]
pub struct Internals {
    pub entity: Entity,
    pub transparent: bool,
    /// Order key of the squared distance from the camera: a larger key is
    /// farther away.
    pub camera_distance: u32,
}

/// `s` with `r` placed before the first record that is strictly nearer than
/// it: records of equal distance keep the order in which they came.
pub open spec fn insert_back_to_front(s: Seq<Internals>, r: Internals) -> Seq<Internals>
    decreases s.len(),
{
    if s.len() == 0 {
        seq![r]
    } else if s[0].camera_distance < r.camera_distance {
        seq![r] + s
    } else {
        seq![s[0]] + insert_back_to_front(s.drop_first(), r)
    }
}

/// The records of `s`, farthest first, stable among equal distances.
pub open spec fn back_to_front(s: Seq<Internals>) -> Seq<Internals>
    decreases s.len(),
{
    if s.len() == 0 {
        Seq::empty()
    } else {
        insert_back_to_front(back_to_front(s.drop_last()), s.last())
    }
}

/// No record is nearer than the one after it.
pub open spec fn is_back_to_front(s: Seq<Internals>) -> bool {
    forall|i: int| 0 <= i < s.len() - 1 ==> #[trigger] s[i].camera_distance >= s[i + 1].camera_distance
}

/// Inserting at the first strictly nearer position is `insert_back_to_front`.
proof fn lemma_insert_at(s: Seq<Internals>, r: Internals, i: int)
    requires
        0 <= i <= s.len(),
        forall|j: int| 0 <= j < i ==> s[j].camera_distance >= r.camera_distance,
        i < s.len() ==> s[i].camera_distance < r.camera_distance,
    ensures
        insert_back_to_front(s, r) == s.insert(i, r),
    decreases s.len(),
{
    if s.len() == 0 {
        assert(s.insert(i, r) =~= seq![r]);
    } else if s[0].camera_distance < r.camera_distance {
        assert(s.insert(i, r) =~= seq![r] + s);
    } else {
        let t = s.drop_first();
        assert forall|j: int| 0 <= j < i - 1 implies t[j].camera_distance >= r.camera_distance by {
            assert(t[j] == s[j + 1]);
        }
        lemma_insert_at(t, r, i - 1);
        assert(s.insert(i, r) =~= seq![s[0]] + t.insert(i - 1, r));
    }
}

proof fn lemma_insert_keeps_order(s: Seq<Internals>, r: Internals)
    requires
        is_back_to_front(s),
    ensures
        is_back_to_front(insert_back_to_front(s, r)),
        insert_back_to_front(s, r).to_multiset() == s.to_multiset().insert(r),
        insert_back_to_front(s, r).len() == s.len() + 1,
        s.len() > 0 ==> insert_back_to_front(s, r)[0] == s[0] || insert_back_to_front(s, r)[0] == r,
    decreases s.len(),
{
    broadcast use vstd::seq_lib::group_to_multiset_ensures;
    if s.len() == 0 {
        assert(seq![r] =~= Seq::<Internals>::empty().push(r));
    } else if s[0].camera_distance < r.camera_distance {
        vstd::seq_lib::lemma_multiset_commutative(seq![r], s);
        assert(seq![r] =~= Seq::<Internals>::empty().push(r));
    } else {
        let t = s.drop_first();
        assert(is_back_to_front(t)) by {
            assert forall|i: int| 0 <= i < t.len() - 1 implies #[trigger] t[i].camera_distance >= t[i + 1].camera_distance by {
                assert(t[i] == s[i + 1] && t[i + 1] == s[i + 2]);
            }
        }
        lemma_insert_keeps_order(t, r);
        let u = insert_back_to_front(t, r);
        let w = seq![s[0]] + u;
        assert(is_back_to_front(w)) by {
            assert forall|i: int| 0 <= i < w.len() - 1 implies #[trigger] w[i].camera_distance >= w[i + 1].camera_distance by {
                if i > 0 {
                    assert(w[i] == u[i - 1] && w[i + 1] == u[i]);
                } else {
                    assert(w[1] == u[0]);
                    if t.len() > 0 {
                        assert(t[0] == s[1]);
                    }
                }
            }
        }
        vstd::seq_lib::lemma_multiset_commutative(seq![s[0]], u);
        vstd::seq_lib::lemma_multiset_commutative(seq![s[0]], t);
        assert(s =~= seq![s[0]] + t);
        assert(seq![s[0]] =~= Seq::<Internals>::empty().push(s[0]));
    }
}

/// The back-to-front order is sorted by distance, farthest first, and holds
/// exactly the records it was given.
pub proof fn lemma_back_to_front(s: Seq<Internals>)
    ensures
        is_back_to_front(back_to_front(s)),
        back_to_front(s).to_multiset() == s.to_multiset(),
        back_to_front(s).len() == s.len(),
    decreases s.len(),
{
    broadcast use vstd::seq_lib::group_to_multiset_ensures;
    if s.len() > 0 {
        lemma_back_to_front(s.drop_last());
        lemma_insert_keeps_order(back_to_front(s.drop_last()), s.last());
        assert(s =~= s.drop_last().push(s.last()));
    }
}

/// Inserts `r` into `v` at its back-to-front place.
pub fn insert_by_distance(v: &mut Vec<Internals>, r: Internals)
    ensures
        final(v)@ == insert_back_to_front(old(v)@, r),
{
    let mut i: usize = 0;
    while i < v.len() && v[i].camera_distance >= r.camera_distance
        invariant
            i <= v.len(),
            v@ == old(v)@,
            forall|j: int| 0 <= j < i ==> v@[j].camera_distance >= r.camera_distance,
        decreases v.len() - i,
    {
        i = i + 1;
    }
    proof {
        lemma_insert_at(v@, r, i as int);
    }
    v.insert(i, r);
}

} // verus!
