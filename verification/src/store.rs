//! An owned model of the host object store.
//!
//! The store holds addressable objects, each a bag of typed components
//! whose state is a [`ReflectedValue`].  Traversal reads it; the
//! write-back engine is the only phase that mutates it.  Object identity
//! is generation-tagged, so a stale [`ObjectId`] kept across an object's
//! destruction no longer resolves.

use vstd::prelude::*;
use crate::path::ObjectId;
use crate::value::{ReflectedValue, ValueV, value_view};

verus! {

/// One typed facet of an object's state.
#[derive(Debug, PartialEq)]
pub struct Component {
    /// Host-assigned key identifying the component's type.
    pub type_key: u64,
    /// The component's reflected state.
    pub value: ReflectedValue,
}

/// One addressable object with its components.
#[derive(Debug, PartialEq)]
pub struct StoredObject {
    pub id: ObjectId,
    pub components: Vec<Component>,
}

/// The shared mutable object store, passed explicitly into every phase.
#[derive(Debug, PartialEq)]
pub struct Store {
    pub objects: Vec<StoredObject>,
}

/// Mathematical shape of [`Component`].
#[verifier::ext_equal]
pub struct ComponentV {
    pub type_key: int,
    pub value: ValueV,
}

/// Mathematical shape of [`StoredObject`].
#[verifier::ext_equal]
pub struct ObjectV {
    pub id: ObjectId,
    pub components: Seq<ComponentV>,
}

/// Mathematical shape of [`Store`].
#[verifier::ext_equal]
pub struct StoreV {
    pub objects: Seq<ObjectV>,
}

/// View of one component.
pub open spec fn component_view(c: Component) -> ComponentV {
    ComponentV { type_key: c.type_key as int, value: value_view(c.value) }
}

/// View of one stored object.
pub open spec fn object_view(o: StoredObject) -> ObjectV {
    ObjectV { id: o.id, components: o.components@.map_values(|c: Component| component_view(c)) }
}

impl View for Store {
    type V = StoreV;

    open spec fn view(&self) -> StoreV {
        StoreV { objects: self.objects@.map_values(|o: StoredObject| object_view(o)) }
    }
}

/// Index of the first object with identity `id`, or `-1`.
pub open spec fn obj_index(objects: Seq<ObjectV>, id: ObjectId) -> int
    decreases objects.len(),
{
    if objects.len() == 0 {
        -1
    } else if objects[0].id == id {
        0
    } else {
        let r = obj_index(objects.subrange(1, objects.len() as int), id);
        if r < 0 {
            -1
        } else {
            r + 1
        }
    }
}

/// Index of the first component with type key `key`, or `-1`.
pub open spec fn comp_index(components: Seq<ComponentV>, key: int) -> int
    decreases components.len(),
{
    if components.len() == 0 {
        -1
    } else if components[0].type_key == key {
        0
    } else {
        let r = comp_index(components.subrange(1, components.len() as int), key);
        if r < 0 {
            -1
        } else {
            r + 1
        }
    }
}

/// `obj_index` finds the first object with the given identity, when one
/// exists.
pub proof fn lemma_obj_index(objects: Seq<ObjectV>, id: ObjectId)
    ensures
        -1 <= obj_index(objects, id) < objects.len(),
        obj_index(objects, id) >= 0 ==> objects[obj_index(objects, id)].id == id,
        obj_index(objects, id) == -1 ==> forall|i: int|
            0 <= i < objects.len() ==> objects[i].id != id,
        forall|i: int| 0 <= i < obj_index(objects, id) ==> objects[i].id != id,
    decreases objects.len(),
{
    if objects.len() > 0 && objects[0].id != id {
        let sub = objects.subrange(1, objects.len() as int);
        lemma_obj_index(sub, id);
        assert(forall|i: int| 1 <= i < objects.len() ==> objects[i] == #[trigger] sub[i - 1]);
        if obj_index(sub, id) == -1 {
            assert forall|i: int| 0 <= i < objects.len() implies objects[i].id != id by {
                if i >= 1 {
                    assert(objects[i] == sub[i - 1]);
                }
            }
        } else {
            assert forall|i: int| 0 <= i < obj_index(objects, id) implies objects[i].id != id by {
                if i >= 1 {
                    assert(objects[i] == sub[i - 1]);
                }
            }
        }
    }
}

/// `comp_index` finds the first component with the given type key, when
/// one exists.
pub proof fn lemma_comp_index(components: Seq<ComponentV>, key: int)
    ensures
        -1 <= comp_index(components, key) < components.len(),
        comp_index(components, key) >= 0 ==> components[comp_index(components, key)].type_key
            == key,
        comp_index(components, key) == -1 ==> forall|i: int|
            0 <= i < components.len() ==> components[i].type_key != key,
        forall|i: int| 0 <= i < comp_index(components, key) ==> components[i].type_key != key,
    decreases components.len(),
{
    if components.len() > 0 && components[0].type_key != key {
        let sub = components.subrange(1, components.len() as int);
        lemma_comp_index(sub, key);
        assert(forall|i: int| 1 <= i < components.len() ==> components[i] == #[trigger] sub[i
            - 1]);
        if comp_index(sub, key) == -1 {
            assert forall|i: int| 0 <= i < components.len() implies components[i].type_key
                != key by {
                if i >= 1 {
                    assert(components[i] == sub[i - 1]);
                }
            }
        } else {
            assert forall|i: int|
                0 <= i < comp_index(components, key) implies components[i].type_key != key by {
                if i >= 1 {
                    assert(components[i] == sub[i - 1]);
                }
            }
        }
    }
}

impl Store {
    /// An empty store.
    pub fn new() -> (r: Store)
        ensures
            r@.objects.len() == 0,
    {
        Store { objects: Vec::new() }
    }

    /// Whether an object with identity `id` is present.
    pub fn contains_object(&self, id: ObjectId) -> (r: bool)
        ensures
            r == (obj_index(self@.objects, id) >= 0),
    {
        let mut i: usize = 0;
        proof {
            lemma_obj_index(self@.objects, id);
        }
        while i < self.objects.len()
            invariant
                i <= self.objects@.len(),
                self@.objects.len() == self.objects@.len(),
                forall|j: int| 0 <= j < i as int ==> self@.objects[j].id != id,
                -1 <= obj_index(self@.objects, id) < self@.objects.len(),
                obj_index(self@.objects, id) >= 0 ==> self@.objects[obj_index(
                    self@.objects,
                    id,
                )].id == id,
                obj_index(self@.objects, id) == -1 ==> forall|j: int|
                    0 <= j < self@.objects.len() ==> self@.objects[j].id != id,
            decreases self.objects@.len() - i as int,
        {
            if self.objects[i].id == id {
                assert(self@.objects[i as int].id == id);
                return true;
            }
            i = i + 1;
        }
        false
    }

    /// Reads one component of one object, the way the read-only
    /// traversal phase does: `None` when the object or the component is
    /// absent, otherwise the component's reflected state.
    #[verifier::loop_isolation(false)]
    pub fn get_component(&self, id: ObjectId, type_key: u64) -> (r: Option<&ReflectedValue>)
        ensures
            ({
                let oi = obj_index(self@.objects, id);
                match r {
                    Some(v) => oi >= 0 && comp_index(self@.objects[oi].components, type_key as int)
                        >= 0 && value_view(*v) == self@.objects[oi].components[comp_index(
                        self@.objects[oi].components,
                        type_key as int,
                    )].value,
                    None => oi < 0 || comp_index(self@.objects[oi].components, type_key as int)
                        < 0,
                }
            }),
    {
        let ghost objs = self@.objects;
        proof {
            lemma_obj_index(objs, id);
        }
        let mut i: usize = 0;
        while i < self.objects.len()
            invariant
                i <= self.objects@.len(),
                forall|j: int| 0 <= j < i as int ==> objs[j].id != id,
            decreases self.objects@.len() - i,
        {
            if self.objects[i].id == id {
                proof {
                    assert(objs[i as int].id == id);
                    assert(obj_index(objs, id) == i as int);
                }
                let obj = &self.objects[i];
                let ghost comps = objs[i as int].components;
                proof {
                    lemma_comp_index(comps, type_key as int);
                }
                let mut k: usize = 0;
                while k < obj.components.len()
                    invariant
                        k <= obj.components@.len(),
                        comps == objs[i as int].components,
                        comps.len() == obj.components@.len(),
                        forall|j: int|
                            0 <= j < k as int ==> comps[j].type_key != type_key as int,
                    decreases obj.components@.len() - k,
                {
                    if obj.components[k].type_key == type_key {
                        proof {
                            assert(comps[k as int].type_key == type_key as int);
                            assert(comp_index(comps, type_key as int) == k as int);
                        }
                        return Some(&obj.components[k].value);
                    }
                    k = k + 1;
                }
                return None;
            }
            i = i + 1;
        }
        None
    }

    /// Adds a fresh object; the caller supplies an identity not yet in
    /// use.
    pub fn insert_object(&mut self, id: ObjectId)
        ensures
            final(self)@.objects == old(self)@.objects.push(
                ObjectV { id, components: Seq::empty() },
            ),
    {
        self.objects.push(StoredObject { id, components: Vec::new() });
        proof {
            assert(self@.objects =~~= old(self)@.objects.push(
                ObjectV { id, components: Seq::empty() },
            ));
        }
    }
}

} // verus!
