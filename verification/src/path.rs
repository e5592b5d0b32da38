//! Durable addressing of one scalar leaf inside one object.
//!
//! A [`FieldPath`] names an object, the type of the owning component, and
//! the ordered field-access steps from the component's root down to the
//! leaf.  It is the only handle used to find the leaf again later; the
//! write-back engine replays it from scratch against the live store.

use vstd::prelude::*;

verus! {

/// Identity of one addressable object in the host store.  The slot index
/// is generation-tagged so a reused slot is distinguishable from the
/// object it replaced.
#[derive(Clone, Copy, Debug, PartialEq, Eq, Structural)]
pub struct ObjectId {
    pub index: u32,
    pub generation: u32,
}

/// A segment in a field path.
#[derive(Clone, Debug, PartialEq)]
pub enum FieldPathSegment {
    /// Named struct field, e.g. `translation`.
    Named(String),
    /// Indexed tuple/tuple-struct field, e.g. `0`, `1`, `2`.
    Index(usize),
}

/// Mathematical shape of a path segment.
pub enum StepV {
    Named(Seq<char>),
    Index(int),
}

impl View for FieldPathSegment {
    type V = StepV;

    open spec fn view(&self) -> StepV {
        match self {
            FieldPathSegment::Named(s) => StepV::Named(s@),
            FieldPathSegment::Index(i) => StepV::Index(*i as int),
        }
    }
}

/// The views of a sequence of path segments.
pub open spec fn steps_view(s: Seq<FieldPathSegment>) -> Seq<StepV> {
    s.map_values(|seg: FieldPathSegment| seg@)
}

/// Describes how to locate a field within a component for write-back.
#[derive(Clone, Debug, PartialEq)]
pub struct FieldPath {
    /// The object holding the component.
    pub entity: ObjectId,
    /// Type key of the owning component.
    pub component_type_id: u64,
    /// The steps that navigate from the component root to the field.
    pub path: Vec<FieldPathSegment>,
}

/// Mathematical shape of a full field path.
pub struct PathV {
    pub entity: ObjectId,
    pub component_type_id: int,
    pub path: Seq<StepV>,
}

impl View for FieldPath {
    type V = PathV;

    open spec fn view(&self) -> PathV {
        PathV {
            entity: self.entity,
            component_type_id: self.component_type_id as int,
            path: steps_view(self.path@),
        }
    }
}

/// Copies one path segment; the copy has the same view.
pub fn clone_segment(seg: &FieldPathSegment) -> (r: FieldPathSegment)
    ensures
        r@ == seg@,
{
    match seg {
        FieldPathSegment::Named(s) => FieldPathSegment::Named(s.clone()),
        FieldPathSegment::Index(i) => FieldPathSegment::Index(*i),
    }
}

/// Copies a sequence of path segments; the copy has the same view.
pub fn clone_steps(steps: &Vec<FieldPathSegment>) -> (r: Vec<FieldPathSegment>)
    ensures
        steps_view(r@) == steps_view(steps@),
        r@.len() == steps@.len(),
{
    let mut out: Vec<FieldPathSegment> = Vec::new();
    let mut i: usize = 0;
    while i < steps.len()
        invariant
            i <= steps@.len(),
            out@.len() == i as int,
            forall|j: int| 0 <= j < i as int ==> out@[j]@ == steps@[j]@,
        decreases steps@.len() - i as int,
    {
        out.push(clone_segment(&steps[i]));
        i = i + 1;
    }
    proof {
        assert(steps_view(out@) =~= steps_view(steps@));
    }
    out
}

/// Copies a full field path; the copy has the same view.
pub fn clone_path(p: &FieldPath) -> (r: FieldPath)
    ensures
        r@ == p@,
{
    FieldPath { entity: p.entity, component_type_id: p.component_type_id, path: clone_steps(
        &p.path,
    ) }
}

} // verus!
