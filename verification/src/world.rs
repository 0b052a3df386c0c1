//! The materialized side of a loading attempt: the attribute set a loaded
//! object carries, and the live collection of objects built from settled
//! loads.

use vstd::prelude::*;

verus! {

/// The finite set of attribute kinds a loaded object may carry. A loaded
/// description is a structure of optional attributes, validated when the
/// object is materialized; the marker tag carries no payload beyond the
/// value used to find the object later.
#[derive(Clone, Copy, Debug, PartialEq, Eq)]
pub struct ObjectAttributes {
    /// The object carries a transform.
    pub has_transform: bool,
    /// The object carries a camera.
    pub has_camera: bool,
    /// The object carries a light.
    pub has_light: bool,
    /// The object carries a fly-control attribute.
    pub has_fly_control: bool,
    /// The marker tag value, when the object carries one.
    pub tag: Option<u64>,
}

impl ObjectAttributes {
    /// An attribute set with nothing in it.
    pub fn none() -> (a: ObjectAttributes)
        ensures
            a == (ObjectAttributes {
                has_transform: false,
                has_camera: false,
                has_light: false,
                has_fly_control: false,
                tag: None,
            }),
    {
        ObjectAttributes {
            has_transform: false,
            has_camera: false,
            has_light: false,
            has_fly_control: false,
            tag: None,
        }
    }
}

/// A materialized object: the identity handed out at materialization time,
/// and the attributes it was built with.
#[derive(Clone, Copy, Debug, PartialEq, Eq)]
pub struct MaterializedObject {
    /// The identity of the live object.
    pub id: u64,
    /// The attributes it carries.
    pub attrs: ObjectAttributes,
}

/// The live scene: every object materialized so far, and the next identity
/// to hand out.
pub struct World {
    objects: Vec<MaterializedObject>,
    next_id: u64,
}

impl World {
    /// The materialized objects, oldest first.
    pub closed spec fn spec_objects(&self) -> Seq<MaterializedObject> {
        self.objects@
    }

    /// The identity the next materialization will receive.
    pub closed spec fn spec_next_id(&self) -> u64 {
        self.next_id
    }

    /// An empty world with no materialized objects.
    pub fn new() -> (w: World)
        ensures
            w.spec_objects() == Seq::<MaterializedObject>::empty(),
            w.spec_next_id() == 0,
    {
        World { objects: Vec::new(), next_id: 0 }
    }

    /// How many objects have been materialized.
    pub fn num_objects(&self) -> (n: usize)
        ensures
            n == self.spec_objects().len(),
    {
        self.objects.len()
    }

    /// The object at the given position.
    pub fn object_at(&self, i: usize) -> (o: &MaterializedObject)
        requires
            i < self.spec_objects().len(),
        ensures
            *o == self.spec_objects()[i as int],
    {
        &self.objects[i]
    }

    /// Constructs the live object for a fully loaded attribute set and
    /// returns its identity.
    pub fn materialize(&mut self, attrs: ObjectAttributes) -> (id: u64)
        requires
            old(self).spec_next_id() < u64::MAX,
            old(self).spec_objects().len() < usize::MAX,
        ensures
            id == old(self).spec_next_id(),
            final(self).spec_objects() == old(self).spec_objects().push(
                MaterializedObject { id, attrs },
            ),
            final(self).spec_next_id() == old(self).spec_next_id() + 1,
    {
        let id = self.next_id;
        self.objects.push(MaterializedObject { id, attrs });
        self.next_id = self.next_id + 1;
        id
    }
}

} // verus!
