use crate::entity::Entity;
use crate::order::{back_to_front, is_back_to_front, lemma_back_to_front, Internals};
use crate::system::{
    ordered_of, record_of, survives, survivors, transparent_of, unordered_of, Candidate,
};
use vstd::prelude::*;

verus! {

/// No two scanned candidates share an entity index: the storage holds one
/// live entity per index.
pub open spec fn distinct_indices(cs: Seq<Candidate>) -> bool {
    forall|i: int, j: int|
        0 <= i < cs.len() && 0 <= j < cs.len() && i != j ==> #[trigger] cs[i].entity.id
            != #[trigger] cs[j].entity.id
}

proof fn lemma_survivors_sound(cs: Seq<Candidate>, k: int)
    requires
        0 <= k < survivors(cs).len(),
    ensures
        exists|j: int| 0 <= j < cs.len() && survives(cs[j]) && survivors(cs)[k] == record_of(#[trigger] cs[j]),
    decreases cs.len(),
{
    let p = cs.drop_last();
    if k < survivors(p).len() {
        lemma_survivors_sound(p, k);
        let j = choose|j: int| 0 <= j < p.len() && survives(p[j]) && survivors(p)[k] == record_of(#[trigger] p[j]);
        assert(cs[j] == p[j]);
    } else {
        assert(survivors(cs)[k] == record_of(cs[cs.len() - 1]));
    }
}

proof fn lemma_survivors_complete(cs: Seq<Candidate>, i: int)
    requires
        0 <= i < cs.len(),
        survives(cs[i]),
    ensures
        survivors(cs).contains(record_of(cs[i])),
    decreases cs.len(),
{
    let p = cs.drop_last();
    if i == cs.len() - 1 {
        assert(survivors(cs)[survivors(cs).len() - 1] == record_of(cs[i]));
    } else {
        assert(p[i] == cs[i]);
        lemma_survivors_complete(p, i);
        let k = choose|k: int| 0 <= k < survivors(p).len() && survivors(p)[k] == record_of(cs[i]);
        assert(survivors(cs)[k] == survivors(p)[k]);
    }
}

proof fn lemma_transparent_sound(s: Seq<Internals>, k: int)
    requires
        0 <= k < transparent_of(s).len(),
    ensures
        transparent_of(s)[k].transparent,
        s.contains(transparent_of(s)[k]),
    decreases s.len(),
{
    let p = s.drop_last();
    if k < transparent_of(p).len() {
        lemma_transparent_sound(p, k);
        let j = choose|j: int| 0 <= j < p.len() && p[j] == transparent_of(p)[k];
        assert(s[j] == p[j]);
    } else {
        assert(transparent_of(s)[k] == s[s.len() - 1]);
    }
}

proof fn lemma_transparent_complete(s: Seq<Internals>, i: int)
    requires
        0 <= i < s.len(),
        s[i].transparent,
    ensures
        transparent_of(s).contains(s[i]),
    decreases s.len(),
{
    let p = s.drop_last();
    if i == s.len() - 1 {
        assert(transparent_of(s)[transparent_of(s).len() - 1] == s[i]);
    } else {
        assert(p[i] == s[i]);
        lemma_transparent_complete(p, i);
        let k = choose|k: int| 0 <= k < transparent_of(p).len() && transparent_of(p)[k] == s[i];
        assert(transparent_of(s)[k] == transparent_of(p)[k]);
    }
}

proof fn lemma_back_to_front_contains(s: Seq<Internals>, r: Internals)
    ensures
        back_to_front(s).contains(r) == s.contains(r),
{
    broadcast use vstd::seq_lib::to_multiset_contains;
    lemma_back_to_front(s);
    assert(back_to_front(s).to_multiset().count(r) == s.to_multiset().count(r));
}

/// An entity in the ordered output is a kept, transparent candidate.
proof fn lemma_ordered_from(cs: Seq<Candidate>, e: Entity)
    requires
        ordered_of(cs).contains(e),
    ensures
        exists|j: int| 0 <= j < cs.len() && survives(cs[j]) && (#[trigger] cs[j]).transparent && cs[j].entity == e,
{
    let b = back_to_front(transparent_of(survivors(cs)));
    let k = choose|k: int| 0 <= k < ordered_of(cs).len() && ordered_of(cs)[k] == e;
    let r = b[k];
    assert(b.contains(r));
    lemma_back_to_front_contains(transparent_of(survivors(cs)), r);
    let t = choose|t: int| 0 <= t < transparent_of(survivors(cs)).len() && transparent_of(survivors(cs))[t] == r;
    lemma_transparent_sound(survivors(cs), t);
    let u = choose|u: int| 0 <= u < survivors(cs).len() && survivors(cs)[u] == r;
    lemma_survivors_sound(cs, u);
}

/// An index in the unordered output is that of a kept, opaque candidate.
proof fn lemma_unordered_from(cs: Seq<Candidate>, id: u32)
    requires
        unordered_of(cs).contains(id),
    ensures
        exists|j: int| 0 <= j < cs.len() && survives(cs[j]) && !(#[trigger] cs[j]).transparent && cs[j].entity.id == id,
{
    let s = survivors(cs);
    let u = choose|u: int| 0 <= u < s.len() && !s[u].transparent && #[trigger] s[u].entity.id == id;
    lemma_survivors_sound(cs, u);
}

/// `r` is the record of a kept, transparent candidate.
pub open spec fn is_kept_transparent(cs: Seq<Candidate>, r: Internals) -> bool {
    exists|j: int| 0 <= j < cs.len() && survives(cs[j]) && (#[trigger] cs[j]).transparent && r == record_of(cs[j])
}

/// An entity marked hidden, or hidden with propagation, appears in neither
/// output, wherever its sphere and the camera are.
pub proof fn lemma_hidden_never_visible(cs: Seq<Candidate>, i: int)
    requires
        distinct_indices(cs),
        0 <= i < cs.len(),
        cs[i].hidden || cs[i].hidden_propagate,
    ensures
        !unordered_of(cs).contains(cs[i].entity.id),
        !ordered_of(cs).contains(cs[i].entity),
{
    if unordered_of(cs).contains(cs[i].entity.id) {
        lemma_unordered_from(cs, cs[i].entity.id);
    }
    if ordered_of(cs).contains(cs[i].entity) {
        lemma_ordered_from(cs, cs[i].entity);
    }
}

/// The two outputs never share an entity.
pub proof fn lemma_outputs_disjoint(cs: Seq<Candidate>, e: Entity)
    requires
        distinct_indices(cs),
        ordered_of(cs).contains(e),
    ensures
        !unordered_of(cs).contains(e.id),
{
    lemma_ordered_from(cs, e);
    if unordered_of(cs).contains(e.id) {
        lemma_unordered_from(cs, e.id);
    }
}

/// A candidate that is not hidden and lies in the frustum appears in
/// exactly one output: the ordered one when transparent, else the
/// unordered one.
pub proof fn lemma_kept_appears_once(cs: Seq<Candidate>, i: int)
    requires
        distinct_indices(cs),
        0 <= i < cs.len(),
        survives(cs[i]),
    ensures
        cs[i].transparent ==> ordered_of(cs).contains(cs[i].entity) && !unordered_of(cs).contains(cs[i].entity.id),
        !cs[i].transparent ==> unordered_of(cs).contains(cs[i].entity.id) && !ordered_of(cs).contains(cs[i].entity),
{
    let s = survivors(cs);
    lemma_survivors_complete(cs, i);
    let u = choose|u: int| 0 <= u < s.len() && s[u] == record_of(cs[i]);
    if cs[i].transparent {
        lemma_transparent_complete(s, u);
        lemma_back_to_front_contains(transparent_of(s), record_of(cs[i]));
        let b = back_to_front(transparent_of(s));
        let k = choose|k: int| 0 <= k < b.len() && b[k] == record_of(cs[i]);
        assert(ordered_of(cs)[k] == cs[i].entity);
        lemma_outputs_disjoint(cs, cs[i].entity);
    } else {
        assert(s[u].entity.id == cs[i].entity.id);
        assert(unordered_of(cs).contains(cs[i].entity.id));
        if ordered_of(cs).contains(cs[i].entity) {
            lemma_ordered_from(cs, cs[i].entity);
        }
    }
}

/// The ordered output lists kept transparent candidates from farthest to
/// nearest: each entry carries the distance of a candidate, and no entry
/// is nearer than the one after it.
pub proof fn lemma_ordered_farthest_first(cs: Seq<Candidate>)
    ensures
        is_back_to_front(back_to_front(transparent_of(survivors(cs)))),
        ordered_of(cs).len() == back_to_front(transparent_of(survivors(cs))).len(),
        forall|k: int|
            0 <= k < ordered_of(cs).len() ==> #[trigger] ordered_of(cs)[k]
                == back_to_front(transparent_of(survivors(cs)))[k].entity,
        forall|k: int|
            0 <= k < ordered_of(cs).len() ==> is_kept_transparent(
                cs,
                #[trigger] back_to_front(transparent_of(survivors(cs)))[k],
            ),
{
    let s = survivors(cs);
    let b = back_to_front(transparent_of(s));
    lemma_back_to_front(transparent_of(s));
    assert forall|k: int| 0 <= k < ordered_of(cs).len() implies is_kept_transparent(cs, #[trigger] b[k]) by {
        assert(b.contains(b[k]));
        lemma_back_to_front_contains(transparent_of(s), b[k]);
        let t = choose|t: int| 0 <= t < transparent_of(s).len() && transparent_of(s)[t] == b[k];
        lemma_transparent_sound(s, t);
        let u = choose|u: int| 0 <= u < s.len() && s[u] == b[k];
        lemma_survivors_sound(cs, u);
        let j = choose|j: int| 0 <= j < cs.len() && survives(cs[j]) && s[u] == record_of(#[trigger] cs[j]);
        assert(0 <= j < cs.len() && survives(cs[j]) && cs[j].transparent && b[k] == record_of(cs[j]));
    }
}

} // verus!
