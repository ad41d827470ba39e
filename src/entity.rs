use vstd::prelude::*;

verus! {

/// An entity identifier: an index into component storage and the
/// generation of the entity that currently holds that index.
#[derive(Clone, Copy, Debug, PartialEq, Eq, Structural)]
pub struct Entity {
    pub id: u32,
    pub generation: i32,
}

impl Entity {
    pub fn new(id: u32, generation: i32) -> (r: Entity)
        ensures
            r.id == id,
            r.generation == generation,
    {
        Entity { id, generation }
    }
}

} // verus!
