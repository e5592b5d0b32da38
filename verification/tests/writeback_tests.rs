use inspector_core::num::{Num, SCALE, VMAX};
use inspector_core::path::{FieldPath, FieldPathSegment, ObjectId};
use inspector_core::store::{Component, Store, StoredObject};
use inspector_core::value::{NamedField, ReflectedValue, ScalarValue, TypeInfo, VariantPayload};
use inspector_core::writeback::{
    DragValueChanged, LocatorError, PendingValueChanges, apply, apply_pending_value_changes,
    queue_value_change,
};

const COMP_KEY: u64 = 11;

fn num(scaled: i128) -> Num {
    Num::new_scaled(scaled).unwrap()
}

fn id() -> ObjectId {
    ObjectId { index: 0, generation: 1 }
}

fn component_value() -> ReflectedValue {
    ReflectedValue::Struct {
        info: Some(TypeInfo { type_key: COMP_KEY, short_name: "Stats".to_string() }),
        fields: vec![
            NamedField {
                name: "health".to_string(),
                value: ReflectedValue::Scalar(ScalarValue::U32(100)),
            },
            NamedField {
                name: "speed".to_string(),
                value: ReflectedValue::Scalar(ScalarValue::F32(num(3 * SCALE / 2))),
            },
            NamedField {
                name: "alive".to_string(),
                value: ReflectedValue::Scalar(ScalarValue::Bool(true)),
            },
            NamedField {
                name: "limits".to_string(),
                value: ReflectedValue::TupleStruct {
                    info: None,
                    fields: vec![
                        ReflectedValue::Scalar(ScalarValue::I64(-5)),
                        ReflectedValue::Scalar(ScalarValue::U64(9)),
                    ],
                },
            },
        ],
    }
}

fn store() -> Store {
    Store {
        objects: vec![
            StoredObject {
                id: id(),
                components: vec![Component { type_key: COMP_KEY, value: component_value() }],
            },
        ],
    }
}

fn locator(path: Vec<FieldPathSegment>) -> FieldPath {
    FieldPath { entity: id(), component_type_id: COMP_KEY, path }
}

fn named(s: &str) -> FieldPathSegment {
    FieldPathSegment::Named(s.to_string())
}

fn scalar_at(store: &Store, field: usize) -> &ReflectedValue {
    match &store.objects[0].components[0].value {
        ReflectedValue::Struct { fields, .. } => &fields[field].value,
        _ => panic!("component shape changed"),
    }
}

#[test]
fn unsigned_coercion_truncates_and_clamps() {
    // 5.9 into an unsigned32 leaf truncates to 5.
    let mut s = store();
    let r = apply(&mut s, &locator(vec![named("health")]), num(5_900_000_000));
    assert_eq!(r, Ok(()));
    assert_eq!(*scalar_at(&s, 0), ReflectedValue::Scalar(ScalarValue::U32(5)));

    // -3.0 into an unsigned leaf clamps to 0.
    let r = apply(&mut s, &locator(vec![named("health")]), num(-3 * SCALE));
    assert_eq!(r, Ok(()));
    assert_eq!(*scalar_at(&s, 0), ReflectedValue::Scalar(ScalarValue::U32(0)));
}

#[test]
fn float_coercion_preserves_the_value() {
    let mut s = store();
    let v = num(5_900_000_000);
    let r = apply(&mut s, &locator(vec![named("speed")]), v);
    assert_eq!(r, Ok(()));
    assert_eq!(*scalar_at(&s, 1), ReflectedValue::Scalar(ScalarValue::F32(v)));
}

#[test]
fn signed_and_unsigned_wide_coercions() {
    let mut s = store();
    let path = vec![named("limits"), FieldPathSegment::Index(0)];
    assert_eq!(apply(&mut s, &locator(path.clone()), num(-7_900_000_000)), Ok(()));
    match scalar_at(&s, 3) {
        ReflectedValue::TupleStruct { fields, .. } => {
            assert_eq!(fields[0], ReflectedValue::Scalar(ScalarValue::I64(-7)));
        }
        _ => panic!("shape changed"),
    }
    let path = vec![named("limits"), FieldPathSegment::Index(1)];
    assert_eq!(apply(&mut s, &locator(path), num(VMAX)), Ok(()));
    match scalar_at(&s, 3) {
        ReflectedValue::TupleStruct { fields, .. } => {
            // The representable maximum exceeds u64::MAX, so the target saturates.
            assert_eq!(fields[1], ReflectedValue::Scalar(ScalarValue::U64(u64::MAX)));
        }
        _ => panic!("shape changed"),
    }
}

#[test]
fn applying_the_current_value_changes_nothing() {
    // A no-op edit: write each numeric leaf's own value back through its path.
    let mut s = store();
    let before = store();
    assert_eq!(apply(&mut s, &locator(vec![named("health")]), Num::from_u32(100)), Ok(()));
    assert_eq!(apply(&mut s, &locator(vec![named("speed")]), num(3 * SCALE / 2)), Ok(()));
    assert_eq!(s, before);
}

#[test]
fn stale_component_fails_safely() {
    // The locator was captured before the component was removed.
    let mut s = store();
    s.objects[0].components.clear();
    let before_objects = vec![StoredObject { id: id(), components: vec![] }];
    let r = apply(&mut s, &locator(vec![named("health")]), Num::from_i32(1));
    assert_eq!(r, Err(LocatorError::ComponentNotFound));
    assert_eq!(s.objects, before_objects);
}

#[test]
fn dead_object_and_reused_slot_fail_safely() {
    let mut s = store();
    let before = store();
    // No object with this index at all.
    let missing = FieldPath {
        entity: ObjectId { index: 9, generation: 1 },
        component_type_id: COMP_KEY,
        path: vec![named("health")],
    };
    assert_eq!(apply(&mut s, &missing, Num::from_i32(1)), Err(LocatorError::ObjectNotFound));
    // Same slot, older generation: the object this locator meant is gone.
    let stale = FieldPath {
        entity: ObjectId { index: 0, generation: 0 },
        component_type_id: COMP_KEY,
        path: vec![named("health")],
    };
    assert_eq!(apply(&mut s, &stale, Num::from_i32(1)), Err(LocatorError::ObjectNotFound));
    assert_eq!(s, before);
}

#[test]
fn path_mismatches_fail_safely() {
    let mut s = store();
    let before = store();
    // Unknown field name.
    let r = apply(&mut s, &locator(vec![named("mana")]), Num::from_i32(1));
    assert_eq!(r, Err(LocatorError::PathResolutionFailed));
    // Index out of range.
    let r = apply(
        &mut s,
        &locator(vec![named("limits"), FieldPathSegment::Index(5)]),
        Num::from_i32(1),
    );
    assert_eq!(r, Err(LocatorError::PathResolutionFailed));
    // Path stops short of a scalar.
    let r = apply(&mut s, &locator(vec![named("limits")]), Num::from_i32(1));
    assert_eq!(r, Err(LocatorError::PathResolutionFailed));
    // Path continues past a scalar.
    let r = apply(
        &mut s,
        &locator(vec![named("health"), FieldPathSegment::Index(0)]),
        Num::from_i32(1),
    );
    assert_eq!(r, Err(LocatorError::PathResolutionFailed));
    assert_eq!(s, before);
}

#[test]
fn non_numeric_leaves_refuse_the_write() {
    let mut s = store();
    let before = store();
    let r = apply(&mut s, &locator(vec![named("alive")]), Num::from_i32(1));
    assert_eq!(r, Err(LocatorError::UnsupportedLeafKind));
    assert_eq!(s, before);
}

#[test]
fn enum_payloads_are_not_writable() {
    let mut s = Store {
        objects: vec![
            StoredObject {
                id: id(),
                components: vec![
                    Component {
                        type_key: COMP_KEY,
                        value: ReflectedValue::Enum {
                            info: None,
                            variant_name: "Some".to_string(),
                            payload: VariantPayload::Tuple(vec![
                                ReflectedValue::Scalar(ScalarValue::I32(1)),
                            ]),
                        },
                    },
                ],
            },
        ],
    };
    let r = apply(&mut s, &locator(vec![FieldPathSegment::Index(0)]), Num::from_i32(2));
    assert_eq!(r, Err(LocatorError::PathResolutionFailed));
}

#[test]
fn queued_changes_drain_in_order_and_the_last_wins() {
    let mut s = store();
    let mut pending = PendingValueChanges::new();
    queue_value_change(
        &mut pending,
        DragValueChanged {
            source: 1,
            field_path: locator(vec![named("health")]),
            new_value: Num::from_i32(7),
        },
    );
    queue_value_change(
        &mut pending,
        DragValueChanged {
            source: 1,
            field_path: locator(vec![named("mana")]),
            new_value: Num::from_i32(3),
        },
    );
    queue_value_change(
        &mut pending,
        DragValueChanged {
            source: 1,
            field_path: locator(vec![named("health")]),
            new_value: Num::from_i32(9),
        },
    );
    let results = apply_pending_value_changes(&mut s, &mut pending);
    assert_eq!(
        results,
        vec![Ok(()), Err(LocatorError::PathResolutionFailed), Ok(())]
    );
    assert!(pending.changes.is_empty(), "one write-back pass drains the whole queue");
    assert_eq!(*scalar_at(&s, 0), ReflectedValue::Scalar(ScalarValue::U32(9)));
}
