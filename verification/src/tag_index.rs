//! Finding a materialized object by its marker tag.
//!
//! A deliberate linear scan: the expected object count is scene-scale, so no
//! secondary index is kept, and the scan is safe to run every tick — before
//! anything has materialized it simply finds nothing.

use crate::world::{MaterializedObject, World};
use vstd::prelude::*;

verus! {

/// The object carries the marker tag `tag`.
pub open spec fn carries(o: MaterializedObject, tag: u64) -> bool {
    o.attrs.tag == Some(tag)
}

/// What a tag lookup may answer over `objects`: the identity of the first
/// object carrying the tag, or nothing when no object carries it.
pub open spec fn found_matches(r: Option<u64>, objects: Seq<MaterializedObject>, tag: u64) -> bool {
    match r {
        Some(id) => exists|i: int|
            {
                &&& 0 <= i < objects.len()
                &&& #[trigger] carries(objects[i], tag)
                &&& id == objects[i].id
                &&& forall|j: int| 0 <= j < i ==> !carries(objects[j], tag)
            },
        None => forall|i: int| 0 <= i < objects.len() ==> !carries(objects[i], tag),
    }
}

/// When exactly one object carries the tag, the lookup answer is forced: it
/// is that object's identity.
pub proof fn lemma_find_unique(r: Option<u64>, objects: Seq<MaterializedObject>, tag: u64, i: int)
    requires
        found_matches(r, objects, tag),
        0 <= i < objects.len(),
        carries(objects[i], tag),
        forall|j: int| 0 <= j < objects.len() && j != i ==> !carries(objects[j], tag),
    ensures
        r == Some(objects[i].id),
{
    match r {
        Some(id) => {
            let w = choose|w: int|
                {
                    &&& 0 <= w < objects.len()
                    &&& #[trigger] carries(objects[w], tag)
                    &&& id == objects[w].id
                    &&& forall|j: int| 0 <= j < w ==> !carries(objects[j], tag)
                };
            assert(w == i);
        },
        None => {
            assert(!carries(objects[i], tag));
        },
    }
}

/// Resolves a materialized object by its marker tag.
pub struct EntityTagIndex {
}

impl EntityTagIndex {
    /// A tag index over whatever the world currently holds.
    pub fn new() -> (idx: EntityTagIndex)
    {
        EntityTagIndex {  }
    }

    /// Scans the materialized objects for the first one carrying
    /// `tag` and returns its identity; finds nothing before any
    /// materialization has occurred.
    pub fn find(&self, world: &World, tag: u64) -> (r: Option<u64>)
        ensures
            found_matches(r, world.spec_objects(), tag),
    {
        let n = world.num_objects();
        let mut i: usize = 0;
        while i < n
            invariant
                n == world.spec_objects().len(),
                i <= n,
                forall|j: int| 0 <= j < i ==> !carries(world.spec_objects()[j], tag),
            decreases n - i,
        {
            let o = world.object_at(i);
            match o.attrs.tag {
                Some(t) => {
                    if t == tag {
                        proof {
                            assert(carries(world.spec_objects()[i as int], tag));
                        }
                        return Some(o.id);
                    }
                },
                None => {},
            }
            proof {
                assert(!carries(world.spec_objects()[i as int], tag));
            }
            i = i + 1;
        }
        None
    }
}

} // verus!
