//! The path-addressed write-back engine.
//!
//! Given a [`FieldPath`] captured by an earlier traversal and a new
//! numeric value, the engine re-resolves the path from scratch against
//! the live store and mutates the terminal scalar with type-correct
//! coercion.  Every failure is local and recoverable: the offending
//! change is dropped with a diagnostic and the store is left exactly as
//! it was.

use vstd::prelude::*;
use crate::num::Num;
use crate::path::{FieldPath, FieldPathSegment, PathV, steps_view};
use crate::store::{
    Component, ComponentV, ObjectV, Store, StoreV, StoredObject, comp_index, component_view,
    lemma_comp_index, lemma_obj_index, obj_index, object_view,
};
use crate::value::{
    FieldV, NamedField, ReflectedValue, ScalarValue, ValueV, coerce_into, field_index, info_view,
    lemma_field_index,
    lemma_named_fields_view, lemma_values_view, named_fields_view, resolve_spec, value_view,
    values_view, write_spec,
};

verus! {

/// Why a queued change could not be applied.
#[derive(Clone, Copy, Debug, PartialEq, Eq, Structural)]
pub enum LocatorError {
    /// No object with the locator's identity is in the store.
    ObjectNotFound,
    /// The object no longer carries a component of the locator's type.
    ComponentNotFound,
    /// A step did not fit the shape it met, named no existing field, or
    /// ran out of range; or the walk ended on a non-scalar.
    PathResolutionFailed,
    /// The leaf the path reaches is not one of the recognized numeric
    /// kinds.
    UnsupportedLeafKind,
}

/// Outcome of one recursive descent of [`set_field_value`].
#[derive(Clone, Copy, Debug, PartialEq, Eq, Structural)]
enum WriteOutcome {
    Updated,
    PathFailed,
    KindFailed,
}

/// Index of the first field of `fields` named `name`, matching
/// [`field_index`] on the view.
fn find_field(fields: &Vec<NamedField>, name: &String) -> (r: Option<usize>)
    ensures
        ({
            let idx = field_index(named_fields_view(fields@), name@);
            match r {
                Some(k) => idx == k as int && k < fields@.len(),
                None => idx == -1,
            }
        }),
{
    proof {
        lemma_named_fields_view(fields@);
        lemma_field_index(named_fields_view(fields@), name@);
    }
    let ghost fv = named_fields_view(fields@);
    let mut i: usize = 0;
    while i < fields.len()
        invariant
            i <= fields@.len(),
            fv == named_fields_view(fields@),
            fv.len() == fields@.len(),
            forall|j: int| 0 <= j < fields@.len() ==> fv[j].name == fields@[j].name@,
            forall|j: int| 0 <= j < i as int ==> fv[j].name != name@,
            -1 <= field_index(fv, name@) < fv.len(),
            field_index(fv, name@) >= 0 ==> fv[field_index(fv, name@)].name == name@,
            field_index(fv, name@) == -1 ==> forall|j: int|
                0 <= j < fv.len() ==> fv[j].name != name@,
            forall|j: int| 0 <= j < field_index(fv, name@) ==> fv[j].name != name@,
        decreases fields@.len() - i as int,
    {
        if fields[i].name == *name {
            proof {
                assert(fields@[i as int].name@ == name@);
                assert(fv[i as int].name == name@);
                assert(field_index(fv, name@) == i as int);
            }
            return Some(i);
        }
        i = i + 1;
    }
    None
}

/// Navigates `steps` (from `depth` on) down `v` and writes `n` into the
/// terminal scalar.  On success the returned value is `v` with exactly
/// that leaf replaced; on failure `v` comes back untouched and the
/// outcome says whether navigation or coercion refused the write.
fn set_field_value(v: ReflectedValue, steps: &Vec<FieldPathSegment>, depth: usize, n: Num) -> (res:
    (ReflectedValue, WriteOutcome))
    requires
        n.wf(),
        depth <= steps@.len(),
    ensures
        ({
            let sv = steps_view(steps@).subrange(depth as int, steps@.len() as int);
            &&& (res.1 == WriteOutcome::Updated <==> write_spec(value_view(v), sv, n@)
                is Some)
            &&& res.1 == WriteOutcome::Updated ==> Some(value_view(res.0)) == write_spec(
                value_view(v),
                sv,
                n@,
            )
            &&& res.1 != WriteOutcome::Updated ==> value_view(res.0) == value_view(v)
            &&& res.1 == WriteOutcome::KindFailed ==> resolve_spec(value_view(v), sv) is Some
                && !resolve_spec(value_view(v), sv)->0.is_numeric()
            &&& res.1 == WriteOutcome::PathFailed ==> resolve_spec(value_view(v), sv) is None
        }),
    decreases steps@.len() - depth,
{
    let ghost sv = steps_view(steps@).subrange(depth as int, steps@.len() as int);
    let ghost vv = value_view(v);
    if depth == steps.len() {
        proof {
            assert(sv.len() == 0);
        }
        match v {
            ReflectedValue::Scalar(s) => match coerce_into(&s, n) {
                Some(ns) => (ReflectedValue::Scalar(ns), WriteOutcome::Updated),
                None => (ReflectedValue::Scalar(s), WriteOutcome::KindFailed),
            },
            other => (other, WriteOutcome::PathFailed),
        }
    } else {
        let ghost svr = sv.subrange(1, sv.len() as int);
        proof {
            assert(sv.len() == steps@.len() - depth);
            assert(sv[0] == steps@[depth as int]@);
            assert(svr =~= steps_view(steps@).subrange(
                depth as int + 1,
                steps@.len() as int,
            ));
        }
        match &steps[depth] {
            FieldPathSegment::Named(name) => match v {
                ReflectedValue::Struct { info, fields } => {
                    proof {
                        assert(vv == ValueV::Struct {
                            info: info_view(info),
                            fields: named_fields_view(fields@),
                        });
                    }
                    match find_field(&fields, name) {
                        Some(idx) => {
                            let mut fields = fields;
                            let ghost f0 = fields@;
                            let ghost fv0 = named_fields_view(f0);
                            let nf = fields.remove(idx);
                            let NamedField { name: fname, value } = nf;
                            proof {
                                lemma_named_fields_view(f0);
                                assert(fv0[idx as int] == FieldV {
                                    name: fname@,
                                    value: value_view(value),
                                });
                            }
                            let (nv, outcome) = set_field_value(value, steps, depth + 1, n);
                            let ghost nvv = value_view(nv);
                            fields.insert(idx, NamedField { name: fname, value: nv });
                            proof {
                                assert(fields@ =~= f0.update(
                                    idx as int,
                                    NamedField { name: fname, value: nv },
                                ));
                                lemma_named_fields_view(fields@);
                                assert(named_fields_view(fields@) =~= fv0.update(
                                    idx as int,
                                    FieldV { name: fname@, value: nvv },
                                ));
                                assert(field_index(fv0, name@) == idx as int);
                                if outcome == WriteOutcome::Updated {
                                    assert(write_spec(vv, sv, n@) == Some(ValueV::Struct {
                                        info: info_view(info),
                                        fields: fv0.update(
                                            idx as int,
                                            FieldV { name: fname@, value: nvv },
                                        ),
                                    }));
                                } else {
                                    assert(nvv == value_view(value));
                                    assert(named_fields_view(fields@) =~= fv0);
                                }
                            }
                            (ReflectedValue::Struct { info, fields }, outcome)
                        },
                        None => (ReflectedValue::Struct { info, fields }, WriteOutcome::PathFailed),
                    }
                },
                other => (other, WriteOutcome::PathFailed),
            },
            FieldPathSegment::Index(i) => {
                let i = *i;
                match v {
                    ReflectedValue::Struct { info, fields } => {
                        proof {
                            assert(vv == ValueV::Struct {
                                info: info_view(info),
                                fields: named_fields_view(fields@),
                            });
                            lemma_named_fields_view(fields@);
                        }
                        if i < fields.len() {
                            let mut fields = fields;
                            let ghost f0 = fields@;
                            let ghost fv0 = named_fields_view(f0);
                            let nf = fields.remove(i);
                            let NamedField { name: fname, value } = nf;
                            proof {
                                assert(fv0[i as int] == FieldV {
                                    name: fname@,
                                    value: value_view(value),
                                });
                            }
                            let (nv, outcome) = set_field_value(value, steps, depth + 1, n);
                            let ghost nvv = value_view(nv);
                            fields.insert(i, NamedField { name: fname, value: nv });
                            proof {
                                assert(fields@ =~= f0.update(
                                    i as int,
                                    NamedField { name: fname, value: nv },
                                ));
                                lemma_named_fields_view(fields@);
                                assert(named_fields_view(fields@) =~= fv0.update(
                                    i as int,
                                    FieldV { name: fname@, value: nvv },
                                ));
                                if outcome == WriteOutcome::Updated {
                                    assert(write_spec(vv, sv, n@) == Some(ValueV::Struct {
                                        info: info_view(info),
                                        fields: fv0.update(
                                            i as int,
                                            FieldV { name: fname@, value: nvv },
                                        ),
                                    }));
                                } else {
                                    assert(nvv == value_view(value));
                                    assert(named_fields_view(fields@) =~= fv0);
                                }
                            }
                            (ReflectedValue::Struct { info, fields }, outcome)
                        } else {
                            (ReflectedValue::Struct { info, fields }, WriteOutcome::PathFailed)
                        }
                    },
                    ReflectedValue::TupleStruct { info, fields } => {
                        proof {
                            assert(vv == ValueV::TupleStruct {
                                info: info_view(info),
                                fields: values_view(fields@),
                            });
                            lemma_values_view(fields@);
                        }
                        if i < fields.len() {
                            let mut fields = fields;
                            let ghost f0 = fields@;
                            let ghost fv0 = values_view(f0);
                            let value = fields.remove(i);
                            proof {
                                assert(fv0[i as int] == value_view(value));
                            }
                            let (nv, outcome) = set_field_value(value, steps, depth + 1, n);
                            let ghost nvv = value_view(nv);
                            fields.insert(i, nv);
                            proof {
                                assert(fields@ =~= f0.update(i as int, nv));
                                lemma_values_view(fields@);
                                assert(values_view(fields@) =~= fv0.update(i as int, nvv));
                                if outcome == WriteOutcome::Updated {
                                    assert(write_spec(vv, sv, n@) == Some(ValueV::TupleStruct {
                                        info: info_view(info),
                                        fields: fv0.update(i as int, nvv),
                                    }));
                                } else {
                                    assert(nvv == value_view(value));
                                    assert(values_view(fields@) =~= fv0);
                                }
                            }
                            (ReflectedValue::TupleStruct { info, fields }, outcome)
                        } else {
                            (
                                ReflectedValue::TupleStruct { info, fields },
                                WriteOutcome::PathFailed,
                            )
                        }
                    },
                    ReflectedValue::Tuple { fields } => {
                        proof {
                            assert(vv == ValueV::Tuple { fields: values_view(fields@) });
                            lemma_values_view(fields@);
                        }
                        if i < fields.len() {
                            let mut fields = fields;
                            let ghost f0 = fields@;
                            let ghost fv0 = values_view(f0);
                            let value = fields.remove(i);
                            proof {
                                assert(fv0[i as int] == value_view(value));
                            }
                            let (nv, outcome) = set_field_value(value, steps, depth + 1, n);
                            let ghost nvv = value_view(nv);
                            fields.insert(i, nv);
                            proof {
                                assert(fields@ =~= f0.update(i as int, nv));
                                lemma_values_view(fields@);
                                assert(values_view(fields@) =~= fv0.update(i as int, nvv));
                                if outcome == WriteOutcome::Updated {
                                    assert(write_spec(vv, sv, n@) == Some(ValueV::Tuple {
                                        fields: fv0.update(i as int, nvv),
                                    }));
                                } else {
                                    assert(nvv == value_view(value));
                                    assert(values_view(fields@) =~= fv0);
                                }
                            }
                            (ReflectedValue::Tuple { fields }, outcome)
                        } else {
                            (ReflectedValue::Tuple { fields }, WriteOutcome::PathFailed)
                        }
                    },
                    other => (other, WriteOutcome::PathFailed),
                }
            },
        }
    }
}

/// What applying one change does to the store: the store after the
/// attempt, and the verdict reported for it.  A failed attempt leaves the
/// store exactly as it was.
pub open spec fn apply_spec(s: StoreV, loc: PathV, x: int) -> (StoreV, Result<
    (),
    LocatorError,
>) {
    let oi = obj_index(s.objects, loc.entity);
    if oi < 0 {
        (s, Err(LocatorError::ObjectNotFound))
    } else {
        let obj = s.objects[oi];
        let ci = comp_index(obj.components, loc.component_type_id);
        if ci < 0 {
            (s, Err(LocatorError::ComponentNotFound))
        } else {
            let comp = obj.components[ci];
            match write_spec(comp.value, loc.path, x) {
                Some(nv) => (
                    StoreV {
                        objects: s.objects.update(
                            oi,
                            ObjectV {
                                id: obj.id,
                                components: obj.components.update(
                                    ci,
                                    ComponentV { type_key: comp.type_key, value: nv },
                                ),
                            },
                        ),
                    },
                    Ok(()),
                ),
                None => if resolve_spec(comp.value, loc.path) is Some {
                    (s, Err(LocatorError::UnsupportedLeafKind))
                } else {
                    (s, Err(LocatorError::PathResolutionFailed))
                },
            }
        }
    }
}

/// Index of the first object with identity `id`, matching [`obj_index`]
/// on the view.
fn find_object_index(objects: &Vec<StoredObject>, id: crate::path::ObjectId) -> (r: Option<usize>)
    ensures
        ({
            let objs = objects@.map_values(|o: StoredObject| object_view(o));
            match r {
                Some(k) => obj_index(objs, id) == k as int && k < objects@.len(),
                None => obj_index(objs, id) == -1,
            }
        }),
{
    let ghost objs = objects@.map_values(|o: StoredObject| object_view(o));
    proof {
        lemma_obj_index(objs, id);
    }
    let mut i: usize = 0;
    while i < objects.len()
        invariant
            i <= objects@.len(),
            objs == objects@.map_values(|o: StoredObject| object_view(o)),
            objs.len() == objects@.len(),
            forall|j: int| 0 <= j < i as int ==> objs[j].id != id,
            -1 <= obj_index(objs, id) < objs.len(),
            obj_index(objs, id) >= 0 ==> objs[obj_index(objs, id)].id == id,
            obj_index(objs, id) == -1 ==> forall|j: int| 0 <= j < objs.len() ==> objs[j].id != id,
            forall|j: int| 0 <= j < obj_index(objs, id) ==> objs[j].id != id,
        decreases objects@.len() - i as int,
    {
        if objects[i].id == id {
            proof {
                assert(objs[i as int].id == id);
                assert(obj_index(objs, id) == i as int);
            }
            return Some(i);
        }
        i = i + 1;
    }
    None
}

/// Index of the first component with the given type key, matching
/// [`comp_index`] on the view.
fn find_component_index(components: &Vec<Component>, type_key: u64) -> (r: Option<usize>)
    ensures
        ({
            let comps = components@.map_values(|c: Component| component_view(c));
            match r {
                Some(k) => comp_index(comps, type_key as int) == k as int && k < components@.len(),
                None => comp_index(comps, type_key as int) == -1,
            }
        }),
{
    let ghost comps = components@.map_values(|c: Component| component_view(c));
    proof {
        lemma_comp_index(comps, type_key as int);
    }
    let mut i: usize = 0;
    while i < components.len()
        invariant
            i <= components@.len(),
            comps == components@.map_values(|c: Component| component_view(c)),
            comps.len() == components@.len(),
            forall|j: int| 0 <= j < i as int ==> comps[j].type_key != type_key as int,
            -1 <= comp_index(comps, type_key as int) < comps.len(),
            comp_index(comps, type_key as int) >= 0 ==> comps[comp_index(
                comps,
                type_key as int,
            )].type_key == type_key as int,
            comp_index(comps, type_key as int) == -1 ==> forall|j: int|
                0 <= j < comps.len() ==> comps[j].type_key != type_key as int,
            forall|j: int|
                0 <= j < comp_index(comps, type_key as int) ==> comps[j].type_key
                    != type_key as int,
        decreases components@.len() - i as int,
    {
        if components[i].type_key == type_key {
            proof {
                assert(comps[i as int].type_key == type_key as int);
                assert(comp_index(comps, type_key as int) == i as int);
            }
            return Some(i);
        }
        i = i + 1;
    }
    None
}

/// Re-resolves `locator` against the live store and applies `new_value`
/// to the scalar leaf it reaches, with type-correct coercion.  Exactly
/// [`apply_spec`] happens: on any failure the verdict says which step
/// refused and the store is untouched.
pub fn apply(store: &mut Store, locator: &FieldPath, new_value: Num) -> (r: Result<
    (),
    LocatorError,
>)
    requires
        new_value.wf(),
    ensures
        final(store)@ == apply_spec(old(store)@, locator@, new_value@).0,
        r == apply_spec(old(store)@, locator@, new_value@).1,
{
    let ghost s0 = store@;
    match find_object_index(&store.objects, locator.entity) {
        None => Err(LocatorError::ObjectNotFound),
        Some(oi) => {
            match find_component_index(&store.objects[oi].components, locator.component_type_id) {
                None => Err(LocatorError::ComponentNotFound),
                Some(ci) => {
                    let ghost objs0 = store.objects@;
                    let removed = store.objects.remove(oi);
                    let ghost objs1 = store.objects@;
                    let StoredObject { id, components } = removed;
                    let mut components = components;
                    let ghost comps0 = components@;
                    let taken = components.remove(ci);
                    let ghost comps1 = components@;
                    let Component { type_key, value } = taken;
                    let (nv, outcome) = set_field_value(value, &locator.path, 0, new_value);
                    let ghost nvv = value_view(nv);
                    components.insert(ci, Component { type_key, value: nv });
                    let ghost comps2 = components@;
                    store.objects.insert(oi, StoredObject { id, components });
                    proof {
                        assert(steps_view(locator.path@).subrange(
                            0,
                            locator.path@.len() as int,
                        ) =~= steps_view(locator.path@));
                        let obj = s0.objects[oi as int];
                        let comp = obj.components[ci as int];
                        assert(obj == object_view(objs0[oi as int]));
                        assert(id == objs0[oi as int].id);
                        assert(comps0 == objs0[oi as int].components@);
                        assert(comp == component_view(comps0[ci as int]));
                        assert(comp.value == value_view(value));
                        // The component vector after the write is the old one
                        // with only the addressed slot replaced.
                        assert(comps2 =~= comps0.update(
                            ci as int,
                            Component { type_key, value: nv },
                        ));
                        assert(comps2.map_values(|c: Component| component_view(c))
                            =~= obj.components.update(
                            ci as int,
                            ComponentV { type_key: comp.type_key, value: nvv },
                        ));
                        // The object vector after the write is the old one with
                        // only the addressed object replaced.
                        assert(forall|j: int|
                            0 <= j < objs0.len() && j != oi as int ==> #[trigger] store.objects@[j]
                                == objs0[j]);
                        assert(store.objects@.len() == objs0.len());
                        assert(store@.objects =~~= s0.objects.update(
                            oi as int,
                            ObjectV {
                                id: obj.id,
                                components: obj.components.update(
                                    ci as int,
                                    ComponentV { type_key: comp.type_key, value: nvv },
                                ),
                            },
                        ));
                        if outcome != WriteOutcome::Updated {
                            assert(store@.objects =~~= s0.objects);
                        }
                    }
                    match outcome {
                        WriteOutcome::Updated => Ok(()),
                        WriteOutcome::PathFailed => Err(LocatorError::PathResolutionFailed),
                        WriteOutcome::KindFailed => Err(LocatorError::UnsupportedLeafKind),
                    }
                },
            }
        },
    }
}


/// A change produced by an edit widget: the widget that produced it, the
/// leaf it addresses, and the proposed new value.
#[derive(Debug, PartialEq)]
pub struct DragValueChanged {
    /// Identity of the widget that triggered this change.
    pub source: u64,
    /// The field path for write-back.
    pub field_path: FieldPath,
    /// The new value.
    pub new_value: Num,
}

/// Mathematical shape of [`DragValueChanged`].
pub struct ChangeV {
    pub source: int,
    pub field_path: PathV,
    pub new_value: int,
}

impl View for DragValueChanged {
    type V = ChangeV;

    open spec fn view(&self) -> ChangeV {
        ChangeV {
            source: self.source as int,
            field_path: self.field_path@,
            new_value: self.new_value@,
        }
    }
}

impl DragValueChanged {
    /// The proposed value lies in the representable range.
    pub open spec fn wf(self) -> bool {
        self.new_value.wf()
    }
}

/// Queue of changes accumulated during one interaction cycle, drained by
/// exactly one write-back pass per cycle.
#[derive(Debug, PartialEq)]
pub struct PendingValueChanges {
    pub changes: Vec<DragValueChanged>,
}

impl View for PendingValueChanges {
    type V = Seq<ChangeV>;

    open spec fn view(&self) -> Seq<ChangeV> {
        self.changes@.map_values(|c: DragValueChanged| c@)
    }
}

impl PendingValueChanges {
    /// Every queued value lies in the representable range.
    pub open spec fn wf(self) -> bool {
        forall|i: int| 0 <= i < self.changes@.len() ==> (#[trigger] self.changes@[i]).wf()
    }

    /// An empty queue.
    pub fn new() -> (r: PendingValueChanges)
        ensures
            r@.len() == 0,
            r.wf(),
    {
        PendingValueChanges { changes: Vec::new() }
    }
}

/// Appends one change to the queue.
pub fn queue_value_change(pending: &mut PendingValueChanges, change: DragValueChanged)
    requires
        change.wf(),
    ensures
        final(pending)@ == old(pending)@.push(change@),
        old(pending).wf() ==> final(pending).wf(),
{
    let ghost c0 = pending.changes@;
    pending.changes.push(change);
    proof {
        assert(pending@ =~= old(pending)@.push(change@));
        if old(pending).wf() {
            assert(forall|i: int|
                0 <= i < c0.len() ==> pending.changes@[i] == #[trigger] c0[i]);
        }
    }
}

/// What draining a queue does to the store: the changes are applied in
/// enqueue order, each by [`apply_spec`], and each yields its own
/// verdict.  A later change to the same locator overrides an earlier one
/// because it is applied after it.
pub open spec fn apply_all_spec(s: StoreV, changes: Seq<ChangeV>) -> (StoreV, Seq<
    Result<(), LocatorError>,
>)
    decreases changes.len(),
{
    if changes.len() == 0 {
        (s, Seq::empty())
    } else {
        let first = apply_spec(s, changes[0].field_path, changes[0].new_value);
        let rest = apply_all_spec(first.0, changes.subrange(1, changes.len() as int));
        (rest.0, seq![first.1] + rest.1)
    }
}

/// Draining a queue yields one verdict per change.
pub proof fn lemma_apply_all_len(s: StoreV, changes: Seq<ChangeV>)
    ensures
        apply_all_spec(s, changes).1.len() == changes.len(),
    decreases changes.len(),
{
    if changes.len() > 0 {
        let first = apply_spec(s, changes[0].field_path, changes[0].new_value);
        lemma_apply_all_len(first.0, changes.subrange(1, changes.len() as int));
    }
}

/// Drains all queued changes and applies them to the store in enqueue
/// order; this is the only phase that mutates the store.  Returns one
/// verdict per change, in order, as the operator-facing diagnostics; a
/// failed change is dropped without disturbing the store.
pub fn apply_pending_value_changes(store: &mut Store, pending: &mut PendingValueChanges) -> (results:
    Vec<Result<(), LocatorError>>)
    requires
        old(pending).wf(),
    ensures
        final(store)@ == apply_all_spec(old(store)@, old(pending)@).0,
        results@ == apply_all_spec(old(store)@, old(pending)@).1,
        final(pending)@.len() == 0,
{
    let ghost cv = pending@;
    let ghost full = apply_all_spec(old(store)@, cv);
    proof {
        lemma_apply_all_len(old(store)@, cv);
        assert(cv.subrange(0, cv.len() as int) =~= cv);
        assert(full.1.subrange(0, 0) =~= Seq::<Result<(), LocatorError>>::empty());
    }
    let mut results: Vec<Result<(), LocatorError>> = Vec::new();
    let mut i: usize = 0;
    while i < pending.changes.len()
        invariant
            pending@ == cv,
            pending.wf(),
            pending@.len() == pending.changes@.len(),
            i <= cv.len(),
            full == apply_all_spec(old(store)@, cv),
            full.1.len() == cv.len(),
            apply_all_spec(store@, cv.subrange(i as int, cv.len() as int)) == (full.0,
            full.1.subrange(i as int, cv.len() as int)),
            results@ == full.1.subrange(0, i as int),
        decreases cv.len() - i as int,
    {
        let ghost s_pre = store@;
        let ghost suf = cv.subrange(i as int, cv.len() as int);
        let change = &pending.changes[i];
        proof {
            assert(change@ == cv[i as int]);
            assert(suf[0] == cv[i as int]);
            assert(change.wf());
        }
        let r = apply(store, &change.field_path, change.new_value);
        results.push(r);
        proof {
            let first = apply_spec(s_pre, cv[i as int].field_path, cv[i as int].new_value);
            assert(store@ == first.0);
            assert(r == first.1);
            assert(suf.subrange(1, suf.len() as int) =~= cv.subrange(
                i as int + 1,
                cv.len() as int,
            ));
            let rest = apply_all_spec(store@, cv.subrange(i as int + 1, cv.len() as int));
            assert(apply_all_spec(s_pre, suf) == (full.0, full.1.subrange(
                i as int,
                cv.len() as int,
            )));
            let first2 = apply_spec(s_pre, suf[0].field_path, suf[0].new_value);
            let rest2 = apply_all_spec(first2.0, suf.subrange(1, suf.len() as int));
            assert(apply_all_spec(s_pre, suf) == (rest2.0, seq![first2.1] + rest2.1));
            assert(first2 == first);
            assert(rest2 == rest);
            assert((rest.0, seq![first.1] + rest.1) == (full.0, full.1.subrange(
                i as int,
                cv.len() as int,
            )));
            lemma_apply_all_len(store@, cv.subrange(i as int + 1, cv.len() as int));
            assert(rest.1 =~= full.1.subrange(i as int + 1, cv.len() as int)) by {
                let mid = full.1.subrange(i as int, cv.len() as int);
                assert(seq![first.1] + rest.1 == mid);
                assert(rest.1.len() == mid.len() - 1);
                assert forall|j: int|
                    0 <= j < rest.1.len() implies rest.1[j] == full.1.subrange(
                    i as int + 1,
                    cv.len() as int,
                )[j] by {
                    assert(rest.1[j] == (seq![first.1] + rest.1)[j + 1]);
                    assert(mid[j + 1] == full.1[i as int + 1 + j]);
                    assert(full.1.subrange(i as int + 1, cv.len() as int)[j] == full.1[i as int + 1
                        + j]);
                }
            }
            assert(full.1[i as int] == (seq![first.1] + rest.1)[0]);
            assert(results@ =~= full.1.subrange(0, i as int + 1));
        }
        i = i + 1;
    }
    proof {
        assert(cv.subrange(cv.len() as int, cv.len() as int) =~= Seq::<ChangeV>::empty());
        assert(full.1.subrange(0, cv.len() as int) =~= full.1);
    }
    pending.changes.clear();
    proof {
        assert(pending@ =~= Seq::<ChangeV>::empty());
    }
    results
}

/// A locator captured before its component was removed fails with
/// `ComponentNotFound` and leaves every object and every other field
/// exactly as it was: the store after the attempt is the store before
/// it.
pub proof fn lemma_stale_component_safe(s: StoreV, loc: PathV, x: int)
    requires
        obj_index(s.objects, loc.entity) >= 0,
        comp_index(
            s.objects[obj_index(s.objects, loc.entity)].components,
            loc.component_type_id,
        ) == -1,
    ensures
        apply_spec(s, loc, x) == (s, Err::<(), LocatorError>(LocatorError::ComponentNotFound)),
{
}

/// A locator whose object is gone fails with `ObjectNotFound` and leaves
/// the store untouched.
pub proof fn lemma_dead_object_safe(s: StoreV, loc: PathV, x: int)
    requires
        obj_index(s.objects, loc.entity) == -1,
    ensures
        apply_spec(s, loc, x) == (s, Err::<(), LocatorError>(LocatorError::ObjectNotFound)),
{
}


/// The scalar leaf a locator currently reaches in the store, when it
/// reaches one.
pub open spec fn located_scalar(s: StoreV, loc: PathV) -> Option<ScalarValue> {
    let oi = obj_index(s.objects, loc.entity);
    if oi < 0 {
        None
    } else {
        let ci = comp_index(s.objects[oi].components, loc.component_type_id);
        if ci < 0 {
            None
        } else {
            resolve_spec(s.objects[oi].components[ci].value, loc.path)
        }
    }
}

/// Applying a leaf's own current value through the write-back engine
/// leaves the store's state unchanged, and the write reports success.
pub proof fn lemma_apply_no_op(s: StoreV, loc: PathV)
    requires
        located_scalar(s, loc) is Some,
        located_scalar(s, loc)->0.is_numeric(),
        located_scalar(s, loc)->0.wf(),
    ensures
        apply_spec(s, loc, located_scalar(s, loc)->0.numeric_spec()) == (s, Ok::<
            (),
            LocatorError,
        >(())),
{
    let oi = obj_index(s.objects, loc.entity);
    lemma_obj_index(s.objects, loc.entity);
    let obj = s.objects[oi];
    let ci = comp_index(obj.components, loc.component_type_id);
    lemma_comp_index(obj.components, loc.component_type_id);
    let comp = obj.components[ci];
    crate::value::lemma_write_self(comp.value, loc.path);
    assert(ComponentV { type_key: comp.type_key, value: comp.value } =~~= comp);
    assert(obj.components.update(ci, comp) =~= obj.components);
    assert(ObjectV { id: obj.id, components: obj.components } =~~= obj);
    assert(s.objects.update(oi, obj) =~= s.objects);
    assert(StoreV { objects: s.objects } =~~= s);
}

} // verus!
