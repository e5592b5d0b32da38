use inspector_core::num::{Num, SCALE};
use inspector_core::path::{FieldPath, FieldPathSegment, ObjectId};
use inspector_core::semantic_names::SemanticFieldNames;
use inspector_core::store::{Component, Store, StoredObject};
use inspector_core::traversal::{DisplayRow, check_value_wf, extract_fields_from_reflect};
use inspector_core::value::{NamedField, ReflectedValue, ScalarValue, TypeInfo, VariantPayload};
use inspector_core::writeback::apply;

const VEC3_KEY: u64 = 101;
const TRANSFORM_KEY: u64 = 7;

fn num(scaled: i128) -> Num {
    Num::new_scaled(scaled).unwrap()
}

fn vec3(x: i128, y: i128, z: i128) -> ReflectedValue {
    ReflectedValue::TupleStruct {
        info: Some(TypeInfo { type_key: VEC3_KEY, short_name: "Vec3".to_string() }),
        fields: vec![
            ReflectedValue::Scalar(ScalarValue::F32(num(x))),
            ReflectedValue::Scalar(ScalarValue::F32(num(y))),
            ReflectedValue::Scalar(ScalarValue::F32(num(z))),
        ],
    }
}

fn transform() -> ReflectedValue {
    ReflectedValue::Struct {
        info: Some(TypeInfo { type_key: TRANSFORM_KEY, short_name: "Transform".to_string() }),
        fields: vec![
            NamedField { name: "translation".to_string(), value: vec3(SCALE, 2 * SCALE, 3 * SCALE) },
        ],
    }
}

fn registry() -> SemanticFieldNames {
    let mut names = SemanticFieldNames::new();
    names.register_axis_names(VEC3_KEY, 3);
    names
}

fn extract(value: &ReflectedValue, names: &SemanticFieldNames) -> Vec<DisplayRow> {
    let mut rows = Vec::new();
    let base: Vec<FieldPathSegment> = Vec::new();
    extract_fields_from_reflect(value, &mut rows, 0, names, &base);
    rows
}

#[test]
fn traversal_is_deterministic() {
    let names = registry();
    let value = transform();
    let first = extract(&value, &names);
    let second = extract(&value, &names);
    assert_eq!(first, second);
}

#[test]
fn vector_fields_use_semantic_names_and_indexed_paths() {
    let names = registry();
    let value = transform();
    let rows = extract(&value, &names);

    // One header row for the composite field, then x, y, z leaf rows.
    assert_eq!(rows.len(), 4);
    assert_eq!(rows[0].label, "translation");
    assert_eq!(rows[0].value_text, "[Vec3]");
    assert_eq!(rows[0].indent, 0);
    assert!(rows[0].edit.is_none());

    let labels: Vec<&str> = rows[1..].iter().map(|r| r.label.as_str()).collect();
    assert_eq!(labels, vec!["x", "y", "z"]);
    for (i, row) in rows[1..].iter().enumerate() {
        assert_eq!(row.indent, 1);
        let edit = row.edit.as_ref().expect("numeric leaf row must be editable");
        assert_eq!(
            edit.path,
            vec![
                FieldPathSegment::Named("translation".to_string()),
                FieldPathSegment::Index(i),
            ]
        );
        assert_eq!(edit.numeric_value.scaled(), ((i as i128) + 1) * SCALE);
    }
    assert_eq!(rows[1].value_text, "1.0");
    assert_eq!(rows[2].value_text, "2.0");
    assert_eq!(rows[3].value_text, "3.0");
}

#[test]
fn positional_labels_without_registry_entry() {
    let names = SemanticFieldNames::new();
    let value = vec3(0, 0, 0);
    let rows = extract(&value, &names);
    let labels: Vec<&str> = rows.iter().map(|r| r.label.as_str()).collect();
    assert_eq!(labels, vec![".0", ".1", ".2"]);
}

#[test]
fn editing_y_through_write_back_leaves_neighbours_alone() {
    // The scenario end to end: traverse, take y's locator, write 42.0
    // through it, and check the stored vector.
    let names = registry();
    let id = ObjectId { index: 4, generation: 1 };
    let mut store = Store {
        objects: vec![
            StoredObject {
                id,
                components: vec![Component { type_key: TRANSFORM_KEY, value: transform() }],
            },
        ],
    };
    let rows = extract(&transform(), &names);
    let y_edit = rows[2].edit.as_ref().unwrap();
    let locator = FieldPath {
        entity: id,
        component_type_id: TRANSFORM_KEY,
        path: y_edit.path.clone(),
    };
    let r = apply(&mut store, &locator, Num::from_i32(42));
    assert_eq!(r, Ok(()));
    let expected = ReflectedValue::Struct {
        info: Some(TypeInfo { type_key: TRANSFORM_KEY, short_name: "Transform".to_string() }),
        fields: vec![
            NamedField {
                name: "translation".to_string(),
                value: vec3(SCALE, 42 * SCALE, 3 * SCALE),
            },
        ],
    };
    assert_eq!(store.objects[0].components[0].value, expected);
}

#[test]
fn scalars_and_collections_render_inline() {
    let names = SemanticFieldNames::new();
    let value = ReflectedValue::Struct {
        info: None,
        fields: vec![
            NamedField {
                name: "flag".to_string(),
                value: ReflectedValue::Scalar(ScalarValue::Bool(true)),
            },
            NamedField {
                name: "count".to_string(),
                value: ReflectedValue::Scalar(ScalarValue::I32(-7)),
            },
            NamedField { name: "elems".to_string(), value: ReflectedValue::List { len: 3 } },
            NamedField { name: "lookup".to_string(), value: ReflectedValue::MapLike { len: 2 } },
            NamedField {
                name: "pair".to_string(),
                value: ReflectedValue::Tuple {
                    fields: vec![
                        ReflectedValue::Scalar(ScalarValue::U32(1)),
                        ReflectedValue::Scalar(ScalarValue::U32(2)),
                    ],
                },
            },
        ],
    };
    let rows = extract(&value, &names);
    assert_eq!(rows.len(), 5);
    assert_eq!(rows[0].value_text, "true");
    assert!(rows[0].edit.is_none(), "a boolean leaf is rendered but never editable");
    assert_eq!(rows[1].value_text, "-7");
    assert!(rows[1].edit.is_some(), "an integer leaf is editable");
    assert_eq!(rows[2].value_text, "[3 items]");
    assert_eq!(rows[3].value_text, "{2 entries}");
    assert_eq!(rows[4].value_text, "(1, 2)");
    assert!(rows[4].edit.is_none(), "an inline tuple is not itself editable");
}

#[test]
fn enum_rows_show_variant_and_every_payload_field() {
    let names = SemanticFieldNames::new();
    let value = ReflectedValue::Enum {
        info: None,
        variant_name: "Perspective".to_string(),
        payload: VariantPayload::Struct(vec![
            NamedField {
                name: "fov".to_string(),
                value: ReflectedValue::Scalar(ScalarValue::F32(num(SCALE / 2))),
            },
            // A composite payload field still gets its own row.
            NamedField { name: "frustum".to_string(), value: vec3(0, 0, 0) },
        ]),
    };
    let rows = extract(&value, &names);
    assert_eq!(rows.len(), 3);
    assert_eq!(rows[0].label, "variant");
    assert_eq!(rows[0].value_text, "Perspective");
    assert_eq!(rows[0].indent, 0);
    assert_eq!(rows[1].label, "fov");
    assert_eq!(rows[1].value_text, "0.5");
    assert_eq!(rows[1].indent, 1);
    assert!(rows[1].edit.is_none(), "enum payload fields are rendered but not editable");
    assert_eq!(rows[2].label, "frustum");
    assert_eq!(rows[2].value_text, "[Vec3]");
    assert_eq!(rows[2].indent, 1);
    assert!(rows[2].edit.is_none());
}

#[test]
fn tuple_variant_payload_emits_a_row_per_field() {
    let names = SemanticFieldNames::new();
    let value = ReflectedValue::Enum {
        info: None,
        variant_name: "Pair".to_string(),
        payload: VariantPayload::Tuple(vec![
            ReflectedValue::Scalar(ScalarValue::I32(3)),
            ReflectedValue::Struct {
                info: Some(TypeInfo { type_key: 9, short_name: "Inner".to_string() }),
                fields: vec![],
            },
        ]),
    };
    let rows = extract(&value, &names);
    assert_eq!(rows.len(), 3);
    assert_eq!(rows[1].label, ".0");
    assert_eq!(rows[1].value_text, "3");
    assert_eq!(rows[2].label, ".1");
    assert_eq!(rows[2].value_text, "[Inner]");
    assert!(rows[2].edit.is_none());
}

#[test]
fn deep_nesting_indents_one_level_per_header() {
    let names = SemanticFieldNames::new();
    let inner = ReflectedValue::Struct {
        info: Some(TypeInfo { type_key: 9, short_name: "Inner".to_string() }),
        fields: vec![
            NamedField {
                name: "leaf".to_string(),
                value: ReflectedValue::Scalar(ScalarValue::U64(5)),
            },
        ],
    };
    let outer = ReflectedValue::Struct {
        info: None,
        fields: vec![NamedField { name: "inner".to_string(), value: inner }],
    };
    let rows = extract(&outer, &names);
    assert_eq!(rows.len(), 2);
    assert_eq!(rows[0].label, "inner");
    assert_eq!(rows[0].value_text, "[Inner]");
    assert_eq!(rows[1].label, "leaf");
    assert_eq!(rows[1].indent, 1);
    let edit = rows[1].edit.as_ref().unwrap();
    assert_eq!(
        edit.path,
        vec![
            FieldPathSegment::Named("inner".to_string()),
            FieldPathSegment::Named("leaf".to_string()),
        ]
    );
}

#[test]
fn well_formedness_checker_accepts_and_rejects() {
    assert!(check_value_wf(&transform()));
    // Duplicate struct field names would break the leaf round trip.
    let dup = ReflectedValue::Struct {
        info: None,
        fields: vec![
            NamedField {
                name: "a".to_string(),
                value: ReflectedValue::Scalar(ScalarValue::Bool(true)),
            },
            NamedField {
                name: "a".to_string(),
                value: ReflectedValue::Scalar(ScalarValue::I32(1)),
            },
        ],
    };
    assert!(!check_value_wf(&dup));
}

#[test]
fn store_accessor_finds_the_component() {
    let id = ObjectId { index: 2, generation: 3 };
    let store = Store {
        objects: vec![
            StoredObject {
                id,
                components: vec![Component { type_key: TRANSFORM_KEY, value: transform() }],
            },
        ],
    };
    assert_eq!(store.get_component(id, TRANSFORM_KEY), Some(&transform()));
    assert_eq!(store.get_component(id, 99), None);
    assert_eq!(
        store.get_component(ObjectId { index: 2, generation: 4 }, TRANSFORM_KEY),
        None
    );
}
