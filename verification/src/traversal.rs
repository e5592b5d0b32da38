//! Reflective traversal: flattening one reflected value into display
//! rows.
//!
//! The traversal is depth-first and parent-before-children.  Scalar and
//! small all-scalar tuple fields render inline as leaf rows; composite
//! fields get a header row and are recursed into one indent level
//! deeper; every enum payload field renders indented but is never
//! editable and never recursed into;
//! collections render as a single summary row.  A row is editable
//! exactly when its leaf is one of the six recognized numeric kinds, and
//! then it carries the steps that reach the leaf again.

use vstd::prelude::*;
use vstd::string::StringExecFns;
use crate::num::Num;
use crate::num_text::{dec_bytes, fmt_int_spec, fmt_trimmed_spec, format_i128, format_trimmed,
    format_u128};
use crate::path::{FieldPathSegment, StepV, clone_steps, steps_view};
use crate::semantic_names::{SemanticFieldNames, lookup_spec};
use crate::text::{append_ascii, ascii_text, text_of};
use crate::value::{
    FieldV, NamedField, PayloadV, ReflectedValue, ScalarValue, TypeInfoV, ValueV, VariantPayload,
    field_index, info_view, lemma_field_index, lemma_named_fields_view, lemma_values_view,
    named_fields_view, resolve_spec, try_extract_numeric, value_view, values_view,
};

verus! {

/// The editable payload of a display row: the leaf's current numeric
/// value and the steps that reach the leaf from the component root.
#[derive(Debug, PartialEq)]
pub struct LeafEdit {
    /// The leaf's numeric value.
    pub numeric_value: Num,
    /// Path segments to reach this field from the component root.
    pub path: Vec<FieldPathSegment>,
}

/// One row of the flattened view of a component.
#[derive(Debug, PartialEq)]
pub struct DisplayRow {
    /// Field label shown on the left.
    pub label: String,
    /// Rendered value or header text.
    pub value_text: String,
    /// Nesting depth.
    pub indent: u8,
    /// Present exactly when the row's leaf is an editable numeric kind.
    pub edit: Option<LeafEdit>,
}

/// Mathematical shape of [`LeafEdit`].
#[verifier::ext_equal]
pub struct LeafEditV {
    pub numeric_value: int,
    pub path: Seq<StepV>,
}

/// Mathematical shape of [`DisplayRow`].
#[verifier::ext_equal]
pub struct RowV {
    pub label: Seq<char>,
    pub value_text: Seq<char>,
    pub indent: int,
    pub edit: Option<LeafEditV>,
}

/// View of one display row.
pub open spec fn row_view(r: DisplayRow) -> RowV {
    RowV {
        label: r.label@,
        value_text: r.value_text@,
        indent: r.indent as int,
        edit: match r.edit {
            Some(e) => Some(
                LeafEditV { numeric_value: e.numeric_value@, path: steps_view(e.path@) },
            ),
            None => None,
        },
    }
}

/// Views of a sequence of display rows.
pub open spec fn rows_view(s: Seq<DisplayRow>) -> Seq<RowV> {
    s.map_values(|r: DisplayRow| row_view(r))
}

/// The rendered text of a scalar leaf.
pub open spec fn scalar_text(s: ScalarValue) -> Seq<char> {
    match s {
        ScalarValue::F32(n) => text_of(fmt_trimmed_spec(n@)),
        ScalarValue::F64(n) => text_of(fmt_trimmed_spec(n@)),
        ScalarValue::I32(x) => text_of(fmt_int_spec(x as int)),
        ScalarValue::I64(x) => text_of(fmt_int_spec(x as int)),
        ScalarValue::U32(x) => text_of(fmt_int_spec(x as int)),
        ScalarValue::U64(x) => text_of(fmt_int_spec(x as int)),
        ScalarValue::Bool(b) => if b {
            "true"@
        } else {
            "false"@
        },
        ScalarValue::Char(c) => seq!['\'', c, '\''],
    }
}

/// The inline rendering of a value, when it is simple enough to render
/// inline: scalars, sized collections as summaries, opaque text, and
/// tuples of at most four inline-renderable parts.
pub open spec fn simple_text(v: ValueV) -> Option<Seq<char>>
    decreases v, 1int,
{
    match v {
        ValueV::Scalar(s) => Some(scalar_text(s)),
        ValueV::Struct { .. } => None,
        ValueV::TupleStruct { .. } => None,
        ValueV::Enum { .. } => None,
        ValueV::Tuple { fields } => if fields.len() <= 4 {
            match tuple_parts(fields) {
                Some(txt) => Some(seq!['('] + txt + seq![')']),
                None => None,
            }
        } else {
            None
        },
        ValueV::List { len } => Some(seq!['['] + text_of(dec_bytes(len as nat)) + " items]"@),
        ValueV::Array { len } => Some(seq!['['] + text_of(dec_bytes(len as nat)) + " items]"@),
        ValueV::MapLike { len } => Some(
            seq!['{'] + text_of(dec_bytes(len as nat)) + " entries}"@,
        ),
        ValueV::SetLike { len } => Some(seq!['{'] + text_of(dec_bytes(len as nat)) + " items}"@),
        ValueV::Opaque { text } => Some(text),
    }
}

/// The comma-joined inline renderings of tuple parts, when every part
/// renders inline.
pub open spec fn tuple_parts(fields: Seq<ValueV>) -> Option<Seq<char>>
    decreases fields, 0int,
{
    if fields.len() == 0 {
        Some(Seq::empty())
    } else {
        match simple_text(fields[0]) {
            Some(t) => match tuple_parts(fields.subrange(1, fields.len() as int)) {
                Some(rest) => Some(
                    if fields.len() == 1 {
                        t
                    } else {
                        t + ", "@ + rest
                    },
                ),
                None => None,
            },
            None => None,
        }
    }
}

/// The type description attached to a composite value, if any.
pub open spec fn info_of(v: ValueV) -> Option<TypeInfoV> {
    match v {
        ValueV::Struct { info, .. } => info,
        ValueV::TupleStruct { info, .. } => info,
        ValueV::Enum { info, .. } => info,
        _ => None,
    }
}

/// The header text for a composite field: its short type name in
/// brackets, with a placeholder where the type is unknown.
pub open spec fn header_text(v: ValueV) -> Seq<char> {
    seq!['['] + (match info_of(v) {
        Some(ti) => ti.short_name,
        None => "?"@,
    }) + seq![']']
}

/// The edit payload of a leaf row: present exactly when the leaf is a
/// numeric scalar.
pub open spec fn edit_of(v: ValueV, fpath: Seq<StepV>) -> Option<LeafEditV> {
    match v {
        ValueV::Scalar(s) => if s.is_numeric() {
            Some(LeafEditV { numeric_value: s.numeric_spec(), path: fpath })
        } else {
            None
        },
        _ => None,
    }
}

/// One indent level deeper, capped at the deepest representable level.
pub open spec fn deeper(indent: int) -> int {
    if indent >= 255 {
        255
    } else {
        indent + 1
    }
}

/// The rows the traversal produces for one value: structs and tuple
/// structs emit one row per field (leaf rows inline, composite fields a
/// header and their own rows one level deeper), enums emit their variant
/// and one indented, non-editable row per payload field, and anything
/// else emits a single summary row when it renders inline.
pub open spec fn extract_rows(
    v: ValueV,
    path: Seq<StepV>,
    reg: Map<u64, Vec<String>>,
    indent: int,
) -> Seq<RowV>
    decreases v, 1int,
{
    match v {
        ValueV::Struct { fields, .. } => struct_rows(fields, path, reg, indent),
        ValueV::TupleStruct { info, fields } => tuple_struct_rows(
            fields,
            info,
            path,
            reg,
            indent,
            0,
        ),
        ValueV::Enum { variant_name, payload, .. } => seq![
            RowV { label: "variant"@, value_text: variant_name, indent, edit: None },
        ] + match payload {
            PayloadV::Unit => Seq::<RowV>::empty(),
            PayloadV::Tuple(fields) => payload_tuple_rows(fields, deeper(indent), 0),
            PayloadV::Struct(fields) => payload_struct_rows(fields, deeper(indent)),
        },
        _ => match simple_text(v) {
            Some(t) => seq![RowV { label: "value"@, value_text: t, indent, edit: None }],
            None => Seq::<RowV>::empty(),
        },
    }
}

/// Rows for the named fields of a struct, in order.
pub open spec fn struct_rows(
    fields: Seq<FieldV>,
    path: Seq<StepV>,
    reg: Map<u64, Vec<String>>,
    indent: int,
) -> Seq<RowV>
    decreases fields, 2int,
{
    if fields.len() == 0 {
        Seq::empty()
    } else {
        let f = fields[0];
        let fpath = path.push(StepV::Named(f.name));
        let head: Seq<RowV> = match simple_text(f.value) {
            Some(t) => seq![
                RowV { label: f.name, value_text: t, indent, edit: edit_of(f.value, fpath) },
            ],
            None => seq![
                RowV { label: f.name, value_text: header_text(f.value), indent, edit: None },
            ] + extract_rows(f.value, fpath, reg, deeper(indent)),
        };
        head + struct_rows(fields.subrange(1, fields.len() as int), path, reg, indent)
    }
}

/// The label of a positional field: the registered semantic name of the
/// owning type's field at that index, or the positional fallback.
pub open spec fn tuple_label(reg: Map<u64, Vec<String>>, info: Option<TypeInfoV>, i: int) -> Seq<
    char,
> {
    match info {
        Some(ti) => match lookup_spec(reg, ti.type_key as u64, i) {
            Some(name) => name,
            None => seq!['.'] + text_of(dec_bytes(i as nat)),
        },
        None => seq!['.'] + text_of(dec_bytes(i as nat)),
    }
}

/// Rows for the positional fields of a tuple struct, starting at field
/// index `i`.
pub open spec fn tuple_struct_rows(
    fields: Seq<ValueV>,
    info: Option<TypeInfoV>,
    path: Seq<StepV>,
    reg: Map<u64, Vec<String>>,
    indent: int,
    i: int,
) -> Seq<RowV>
    decreases fields, 2int,
{
    if fields.len() == 0 {
        Seq::empty()
    } else {
        let f = fields[0];
        let fpath = path.push(StepV::Index(i));
        let label = tuple_label(reg, info, i);
        let head: Seq<RowV> = match simple_text(f) {
            Some(t) => seq![RowV { label, value_text: t, indent, edit: edit_of(f, fpath) }],
            None => seq![RowV { label, value_text: header_text(f), indent, edit: None }]
                + extract_rows(f, fpath, reg, deeper(indent)),
        };
        head + tuple_struct_rows(
            fields.subrange(1, fields.len() as int),
            info,
            path,
            reg,
            indent,
            i + 1,
        )
    }
}

/// Rows for the payload fields of a tuple-shaped variant: one row per
/// field, never editable, never recursed into; a composite field shows
/// its bracketed short type name.
pub open spec fn payload_tuple_rows(fields: Seq<ValueV>, indent: int, i: int) -> Seq<RowV>
    decreases fields,
{
    if fields.len() == 0 {
        Seq::empty()
    } else {
        let text = match simple_text(fields[0]) {
            Some(t) => t,
            None => header_text(fields[0]),
        };
        seq![
            RowV {
                label: seq!['.'] + text_of(dec_bytes(i as nat)),
                value_text: text,
                indent,
                edit: None,
            },
        ] + payload_tuple_rows(fields.subrange(1, fields.len() as int), indent, i + 1)
    }
}

/// Rows for the payload fields of a struct-shaped variant: one row per
/// field, never editable, never recursed into; a composite field shows
/// its bracketed short type name.
pub open spec fn payload_struct_rows(fields: Seq<FieldV>, indent: int) -> Seq<RowV>
    decreases fields,
{
    if fields.len() == 0 {
        Seq::empty()
    } else {
        let text = match simple_text(fields[0].value) {
            Some(t) => t,
            None => header_text(fields[0].value),
        };
        seq![RowV { label: fields[0].name, value_text: text, indent, edit: None }]
            + payload_struct_rows(fields.subrange(1, fields.len() as int), indent)
    }
}

/// Scalar payloads lie in the representable range and struct field
/// names are distinct, so that a leaf's recorded path resolves back to
/// that very leaf.
pub open spec fn value_wf(v: ValueV) -> bool
    decreases v, 1int,
{
    match v {
        ValueV::Scalar(s) => s.wf(),
        ValueV::Struct { fields, .. } => fields_wf(fields) && (forall|i: int, j: int|
            0 <= i < j < fields.len() ==> fields[i].name != fields[j].name),
        ValueV::TupleStruct { fields, .. } => values_wf(fields),
        ValueV::Tuple { fields } => values_wf(fields),
        ValueV::Enum { payload, .. } => match payload {
            PayloadV::Unit => true,
            PayloadV::Tuple(fields) => values_wf(fields),
            PayloadV::Struct(fields) => fields_wf(fields),
        },
        _ => true,
    }
}

/// Well-formedness of a sequence of positional fields.
pub open spec fn values_wf(s: Seq<ValueV>) -> bool
    decreases s, 0int,
{
    if s.len() == 0 {
        true
    } else {
        value_wf(s[0]) && values_wf(s.subrange(1, s.len() as int))
    }
}

/// Well-formedness of a sequence of named fields.
pub open spec fn fields_wf(s: Seq<FieldV>) -> bool
    decreases s, 0int,
{
    if s.len() == 0 {
        true
    } else {
        value_wf(s[0].value) && fields_wf(s.subrange(1, s.len() as int))
    }
}

/// Well-formed field sequences are well-formed pointwise.
pub proof fn lemma_values_wf(s: Seq<ValueV>)
    requires
        values_wf(s),
    ensures
        forall|i: int| 0 <= i < s.len() ==> value_wf(#[trigger] s[i]),
    decreases s.len(),
{
    if s.len() > 0 {
        let sub = s.subrange(1, s.len() as int);
        lemma_values_wf(sub);
        assert forall|i: int| 0 <= i < s.len() implies value_wf(#[trigger] s[i]) by {
            if i >= 1 {
                assert(s[i] == sub[i - 1]);
                assert(value_wf(sub[i - 1]));
            }
        }
    }
}

/// Well-formed named-field sequences are well-formed pointwise.
pub proof fn lemma_fields_wf(s: Seq<FieldV>)
    requires
        fields_wf(s),
    ensures
        forall|i: int| 0 <= i < s.len() ==> value_wf(#[trigger] s[i].value),
    decreases s.len(),
{
    if s.len() > 0 {
        let sub = s.subrange(1, s.len() as int);
        lemma_fields_wf(sub);
        assert forall|i: int| 0 <= i < s.len() implies value_wf(#[trigger] s[i].value) by {
            if i >= 1 {
                assert(s[i] == sub[i - 1]);
                assert(value_wf(sub[i - 1].value));
            }
        }
    }
}


/// Appends the one character.  Relies on `String::push`: the string is
/// extended by exactly the given character.
#[verifier::external_body]
fn push_char(s: &mut String, c: char)
    ensures
        final(s)@ == old(s)@.push(c),
{
    s.push(c)
}

/// One indent level deeper, saturating at the deepest level.
fn deeper_exec(indent: u8) -> (r: u8)
    ensures
        r as int == deeper(indent as int),
{
    if indent == 255 {
        255
    } else {
        indent + 1
    }
}

/// Renders one scalar leaf.
fn scalar_text_exec(s: &ScalarValue) -> (r: String)
    requires
        s.wf(),
    ensures
        r@ == scalar_text(*s),
{
    match s {
        ScalarValue::F32(n) => {
            let bytes = format_trimmed(*n);
            ascii_text(&bytes)
        },
        ScalarValue::F64(n) => {
            let bytes = format_trimmed(*n);
            ascii_text(&bytes)
        },
        ScalarValue::I32(x) => {
            let bytes = format_i128(*x as i128);
            ascii_text(&bytes)
        },
        ScalarValue::I64(x) => {
            let bytes = format_i128(*x as i128);
            ascii_text(&bytes)
        },
        ScalarValue::U32(x) => {
            let bytes = format_u128(*x as u128);
            ascii_text(&bytes)
        },
        ScalarValue::U64(x) => {
            let bytes = format_u128(*x as u128);
            ascii_text(&bytes)
        },
        ScalarValue::Bool(b) => {
            if *b {
                String::from_str("true")
            } else {
                String::from_str("false")
            }
        },
        ScalarValue::Char(c) => {
            let mut out = String::from_str("'");
            push_char(&mut out, *c);
            out.append("'");
            proof {
                reveal_strlit("'");
                assert(out@ =~= scalar_text(*s));
            }
            out
        },
    }
}

/// The positional fallback label for field `i`.
fn dot_index_label(i: usize) -> (r: String)
    ensures
        r@ == seq!['.'] + text_of(dec_bytes(i as nat)),
{
    let mut out = String::from_str(".");
    let bytes = format_u128(i as u128);
    append_ascii(&mut out, &bytes);
    proof {
        reveal_strlit(".");
        assert(out@ =~= seq!['.'] + text_of(dec_bytes(i as nat)));
    }
    out
}

/// Renders a value inline when it is simple enough, following
/// [`simple_text`].
fn format_simple(v: &ReflectedValue) -> (r: Option<String>)
    requires
        value_wf(value_view(*v)),
    ensures
        match r {
            Some(t) => simple_text(value_view(*v)) == Some(t@),
            None => simple_text(value_view(*v)) is None,
        },
    decreases *v, 1int,
{
    match v {
        ReflectedValue::Scalar(s) => Some(scalar_text_exec(s)),
        ReflectedValue::Struct { .. } => None,
        ReflectedValue::TupleStruct { .. } => None,
        ReflectedValue::Enum { .. } => None,
        ReflectedValue::Tuple { fields } => {
            proof {
                lemma_values_view(fields@);
            }
            if fields.len() <= 4 {
                match tuple_parts_exec(fields, 0) {
                    Some(txt) => {
                        let mut out = String::from_str("(");
                        out.append(txt.as_str());
                        out.append(")");
                        proof {
                            reveal_strlit("(");
                            reveal_strlit(")");
                            assert(values_view(fields@).subrange(
                                0,
                                values_view(fields@).len() as int,
                            ) =~= values_view(fields@));
                            assert(out@ =~= seq!['('] + txt@ + seq![')']);
                        }
                        Some(out)
                    },
                    None => {
                        proof {
                            assert(values_view(fields@).subrange(
                                0,
                                values_view(fields@).len() as int,
                            ) =~= values_view(fields@));
                        }
                        None
                    },
                }
            } else {
                None
            }
        },
        ReflectedValue::List { len } => {
            let mut out = String::from_str("[");
            let bytes = format_u128(*len as u128);
            append_ascii(&mut out, &bytes);
            out.append(" items]");
            proof {
                reveal_strlit("[");
                assert(out@ =~= seq!['['] + text_of(dec_bytes(*len as nat)) + " items]"@);
            }
            Some(out)
        },
        ReflectedValue::Array { len } => {
            let mut out = String::from_str("[");
            let bytes = format_u128(*len as u128);
            append_ascii(&mut out, &bytes);
            out.append(" items]");
            proof {
                reveal_strlit("[");
                assert(out@ =~= seq!['['] + text_of(dec_bytes(*len as nat)) + " items]"@);
            }
            Some(out)
        },
        ReflectedValue::MapLike { len } => {
            let mut out = String::from_str("{");
            let bytes = format_u128(*len as u128);
            append_ascii(&mut out, &bytes);
            out.append(" entries}");
            proof {
                reveal_strlit("{");
                assert(out@ =~= seq!['{'] + text_of(dec_bytes(*len as nat)) + " entries}"@);
            }
            Some(out)
        },
        ReflectedValue::SetLike { len } => {
            let mut out = String::from_str("{");
            let bytes = format_u128(*len as u128);
            append_ascii(&mut out, &bytes);
            out.append(" items}");
            proof {
                reveal_strlit("{");
                assert(out@ =~= seq!['{'] + text_of(dec_bytes(*len as nat)) + " items}"@);
            }
            Some(out)
        },
        ReflectedValue::Opaque { text } => Some(text.clone()),
    }
}

/// Renders the comma-joined inline parts of the tuple fields from `i`
/// on, following [`tuple_parts`] on that suffix.
fn tuple_parts_exec(fields: &Vec<ReflectedValue>, i: usize) -> (r: Option<String>)
    requires
        values_wf(values_view(fields@)),
        i <= fields@.len(),
    ensures
        ({
            let suffix = values_view(fields@).subrange(i as int, fields@.len() as int);
            match r {
                Some(t) => tuple_parts(suffix) == Some(t@),
                None => tuple_parts(suffix) is None,
            }
        }),
    decreases *fields, fields@.len() - i,
{
    let ghost fv = values_view(fields@);
    proof {
        lemma_values_view(fields@);
        lemma_values_wf(fv);
    }
    let ghost suffix = fv.subrange(i as int, fields@.len() as int);
    if i == fields.len() {
        proof {
            assert(suffix.len() == 0);
        }
        Some(String::new())
    } else {
        proof {
            assert(suffix[0] == fv[i as int]);
            assert(suffix.subrange(1, suffix.len() as int) =~= fv.subrange(
                i as int + 1,
                fields@.len() as int,
            ));
        }
        match format_simple(&fields[i]) {
            Some(t) => match tuple_parts_exec(fields, i + 1) {
                Some(rest) => {
                    if i + 1 == fields.len() {
                        Some(t)
                    } else {
                        let mut out = t;
                        out.append(", ");
                        out.append(rest.as_str());
                        proof {
                            reveal_strlit(", ");
                        }
                        Some(out)
                    }
                },
                None => None,
            },
            None => None,
        }
    }
}


/// Renders the bracketed short type name a composite field's header
/// shows.
fn header_text_exec(v: &ReflectedValue) -> (r: String)
    ensures
        r@ == header_text(value_view(*v)),
{
    let mut out = String::from_str("[");
    match v {
        ReflectedValue::Struct { info: Some(ti), .. } => {
            out.append(ti.short_name.as_str());
        },
        ReflectedValue::TupleStruct { info: Some(ti), .. } => {
            out.append(ti.short_name.as_str());
        },
        ReflectedValue::Enum { info: Some(ti), .. } => {
            out.append(ti.short_name.as_str());
        },
        _ => {
            out.append("?");
        },
    }
    out.append("]");
    proof {
        reveal_strlit("[");
        reveal_strlit("]");
        reveal_strlit("?");
        assert(out@ =~= header_text(value_view(*v)));
    }
    out
}

/// Extracts fields from a reflected value into a flat list of display
/// rows, appended to `out`.  The appended rows are exactly
/// [`extract_rows`] of the value: the traversal is deterministic, and a
/// row carries an edit payload exactly when its leaf is numeric.
pub fn extract_fields_from_reflect(
    reflected: &ReflectedValue,
    out: &mut Vec<DisplayRow>,
    indent: u8,
    semantic_names: &SemanticFieldNames,
    current_path: &Vec<FieldPathSegment>,
)
    requires
        value_wf(value_view(*reflected)),
    ensures
        rows_view(final(out)@) == rows_view(old(out)@) + extract_rows(
            value_view(*reflected),
            steps_view(current_path@),
            semantic_names@,
            indent as int,
        ),
    decreases *reflected, 1int,
{
    let ghost vv = value_view(*reflected);
    let ghost path_v = steps_view(current_path@);
    let ghost reg = semantic_names@;
    let ghost base = rows_view(old(out)@);
    match reflected {
        ReflectedValue::Struct { info, fields } => {
            proof {
                assert(vv == ValueV::Struct {
                    info: info_view(*info),
                    fields: named_fields_view(fields@),
                });
            }
            extract_struct_fields(fields, out, indent, semantic_names, current_path);
        },
        ReflectedValue::TupleStruct { info, fields } => {
            proof {
                assert(vv == ValueV::TupleStruct {
                    info: info_view(*info),
                    fields: values_view(fields@),
                });
            }
            extract_tuple_fields(fields, info, out, indent, semantic_names, current_path);
        },
        ReflectedValue::Enum { info, variant_name, payload } => {
            out.push(
                DisplayRow {
                    label: String::from_str("variant"),
                    value_text: variant_name.clone(),
                    indent,
                    edit: None,
                },
            );
            let ghost vrow = RowV {
                label: "variant"@,
                value_text: variant_name@,
                indent: indent as int,
                edit: None,
            };
            let ghost base2 = rows_view(out@);
            proof {
                assert(base2 =~= base + seq![vrow]);
            }
            let child_indent = deeper_exec(indent);
            match payload {
                VariantPayload::Unit => {
                    proof {
                        assert(rows_view(out@) =~= base + extract_rows(
                            vv,
                            path_v,
                            reg,
                            indent as int,
                        ));
                    }
                },
                VariantPayload::Tuple(fields) => {
                    extract_payload_tuple(fields, out, child_indent);
                    proof {
                        assert(rows_view(out@) =~= base + (seq![vrow] + payload_tuple_rows(
                            values_view(fields@),
                            child_indent as int,
                            0,
                        )));
                    }
                },
                VariantPayload::Struct(fields) => {
                    extract_payload_struct(fields, out, child_indent);
                    proof {
                        assert(rows_view(out@) =~= base + (seq![vrow] + payload_struct_rows(
                            named_fields_view(fields@),
                            child_indent as int,
                        )));
                    }
                },
            }
        },
        _ => {
            match format_simple(reflected) {
                Some(text) => {
                    out.push(
                        DisplayRow {
                            label: String::from_str("value"),
                            value_text: text,
                            indent,
                            edit: None,
                        },
                    );
                    proof {
                        assert(rows_view(out@) =~= base + extract_rows(
                            vv,
                            path_v,
                            reg,
                            indent as int,
                        ));
                    }
                },
                None => {
                    proof {
                        assert(rows_view(out@) =~= base + extract_rows(
                            vv,
                            path_v,
                            reg,
                            indent as int,
                        ));
                    }
                },
            }
        },
    }
}

/// Emits the rows for a struct's named fields, following
/// [`struct_rows`].
#[verifier::loop_isolation(false)]
#[verifier::rlimit(60)]
fn extract_struct_fields(
    fields: &Vec<NamedField>,
    out: &mut Vec<DisplayRow>,
    indent: u8,
    semantic_names: &SemanticFieldNames,
    current_path: &Vec<FieldPathSegment>,
)
    requires
        fields_wf(named_fields_view(fields@)),
    ensures
        rows_view(final(out)@) == rows_view(old(out)@) + struct_rows(
            named_fields_view(fields@),
            steps_view(current_path@),
            semantic_names@,
            indent as int,
        ),
    decreases *fields, 0int,
{
    let ghost fv = named_fields_view(fields@);
    let ghost path_v = steps_view(current_path@);
    let ghost reg = semantic_names@;
    let ghost base = rows_view(old(out)@);
    proof {
        lemma_named_fields_view(fields@);
        lemma_fields_wf(fv);
        assert(fv.subrange(0, fv.len() as int) =~= fv);
    }
    let mut i: usize = 0;
    while i < fields.len()
        invariant
            i <= fields@.len(),
            rows_view(out@) + struct_rows(
                fv.subrange(i as int, fv.len() as int),
                path_v,
                reg,
                indent as int,
            ) == base + struct_rows(fv, path_v, reg, indent as int),
        decreases fields@.len() - i,
    {
        let ghost suf = fv.subrange(i as int, fv.len() as int);
        let ghost out_pre = rows_view(out@);
        proof {
            assert(suf[0] == fv[i as int]);
            assert(suf.subrange(1, suf.len() as int) =~= fv.subrange(
                i as int + 1,
                fv.len() as int,
            ));
            assert(fv[i as int].value == value_view(fields@[i as int].value));
            assert(value_wf(fv[i as int].value));
        }
        let f = &fields[i];
        let mut fpath = clone_steps(current_path);
        fpath.push(FieldPathSegment::Named(f.name.clone()));
        let ghost fpath_v = path_v.push(StepV::Named(fv[i as int].name));
        proof {
            assert(steps_view(fpath@) =~= fpath_v);
        }
        match format_simple(&f.value) {
            Some(text) => {
                let edit: Option<LeafEdit> = match &f.value {
                    ReflectedValue::Scalar(sc) => match try_extract_numeric(sc) {
                        Some(n) => Some(LeafEdit { numeric_value: n, path: fpath }),
                        None => None,
                    },
                    _ => None,
                };
                let ghost ev: Option<LeafEditV> = if edit is Some {
                    Some(
                        LeafEditV {
                            numeric_value: edit->0.numeric_value@,
                            path: steps_view(edit->0.path@),
                        },
                    )
                } else {
                    None
                };
                proof {
                    assert(ev == edit_of(fv[i as int].value, fpath_v));
                }
                out.push(DisplayRow { label: f.name.clone(), value_text: text, indent, edit });
                proof {
                    assert(struct_rows(suf, path_v, reg, indent as int) == seq![
                        RowV {
                            label: fv[i as int].name,
                            value_text: simple_text(fv[i as int].value)->0,
                            indent: indent as int,
                            edit: edit_of(fv[i as int].value, fpath_v),
                        },
                    ] + struct_rows(
                        suf.subrange(1, suf.len() as int),
                        path_v,
                        reg,
                        indent as int,
                    ));
                    assert(rows_view(out@) =~= out_pre + seq![
                        RowV {
                            label: fv[i as int].name,
                            value_text: simple_text(fv[i as int].value)->0,
                            indent: indent as int,
                            edit: edit_of(fv[i as int].value, fpath_v),
                        },
                    ]);
                }
            },
            None => {
                let hdr = header_text_exec(&f.value);
                out.push(
                    DisplayRow { label: f.name.clone(), value_text: hdr, indent, edit: None },
                );
                let ghost out_mid = rows_view(out@);
                proof {
                    assert(out_mid =~= out_pre + seq![
                        RowV {
                            label: fv[i as int].name,
                            value_text: header_text(fv[i as int].value),
                            indent: indent as int,
                            edit: None,
                        },
                    ]);
                }
                let child_indent = deeper_exec(indent);
                extract_fields_from_reflect(&f.value, out, child_indent, semantic_names, &fpath);
                proof {
                    assert(rows_view(out@) == out_mid + extract_rows(
                        fv[i as int].value,
                        fpath_v,
                        reg,
                        deeper(indent as int),
                    ));
                    assert(rows_view(out@) =~= out_pre + (seq![
                        RowV {
                            label: fv[i as int].name,
                            value_text: header_text(fv[i as int].value),
                            indent: indent as int,
                            edit: None,
                        },
                    ] + extract_rows(fv[i as int].value, fpath_v, reg, deeper(indent as int))));
                }
            },
        }
        proof {
            assert(rows_view(out@) + struct_rows(
                fv.subrange(i as int + 1, fv.len() as int),
                path_v,
                reg,
                indent as int,
            ) =~= base + struct_rows(fv, path_v, reg, indent as int));
        }
        i = i + 1;
    }
    proof {
        assert(fv.subrange(fv.len() as int, fv.len() as int) =~= Seq::<FieldV>::empty());
        assert(rows_view(out@) =~= base + struct_rows(fv, path_v, reg, indent as int));
    }
}

/// Emits the rows for a tuple struct's positional fields, following
/// [`tuple_struct_rows`].
#[verifier::loop_isolation(false)]
#[verifier::rlimit(60)]
fn extract_tuple_fields(
    fields: &Vec<ReflectedValue>,
    info: &Option<crate::value::TypeInfo>,
    out: &mut Vec<DisplayRow>,
    indent: u8,
    semantic_names: &SemanticFieldNames,
    current_path: &Vec<FieldPathSegment>,
)
    requires
        values_wf(values_view(fields@)),
    ensures
        rows_view(final(out)@) == rows_view(old(out)@) + tuple_struct_rows(
            values_view(fields@),
            info_view(*info),
            steps_view(current_path@),
            semantic_names@,
            indent as int,
            0,
        ),
    decreases *fields, 0int,
{
    let ghost fv = values_view(fields@);
    let ghost iv = info_view(*info);
    let ghost path_v = steps_view(current_path@);
    let ghost reg = semantic_names@;
    let ghost base = rows_view(old(out)@);
    proof {
        lemma_values_view(fields@);
        lemma_values_wf(fv);
        assert(fv.subrange(0, fv.len() as int) =~= fv);
    }
    let mut i: usize = 0;
    while i < fields.len()
        invariant
            i <= fields@.len(),
            rows_view(out@) + tuple_struct_rows(
                fv.subrange(i as int, fv.len() as int),
                iv,
                path_v,
                reg,
                indent as int,
                i as int,
            ) == base + tuple_struct_rows(fv, iv, path_v, reg, indent as int, 0),
        decreases fields@.len() - i,
    {
        let ghost suf = fv.subrange(i as int, fv.len() as int);
        let ghost out_pre = rows_view(out@);
        proof {
            assert(suf[0] == fv[i as int]);
            assert(suf.subrange(1, suf.len() as int) =~= fv.subrange(
                i as int + 1,
                fv.len() as int,
            ));
            assert(fv[i as int] == value_view(fields@[i as int]));
            assert(value_wf(fv[i as int]));
        }
        let f = &fields[i];
        let mut fpath = clone_steps(current_path);
        fpath.push(FieldPathSegment::Index(i));
        let ghost fpath_v = path_v.push(StepV::Index(i as int));
        proof {
            assert(steps_view(fpath@) =~= fpath_v);
        }
        let label: String = match info {
            Some(ti) => match semantic_names.get_field_name(ti.type_key, i) {
                Some(nm) => nm,
                None => dot_index_label(i),
            },
            None => dot_index_label(i),
        };
        proof {
            assert(label@ == tuple_label(reg, iv, i as int));
        }
        match format_simple(f) {
            Some(text) => {
                let edit: Option<LeafEdit> = match f {
                    ReflectedValue::Scalar(sc) => match try_extract_numeric(sc) {
                        Some(n) => Some(LeafEdit { numeric_value: n, path: fpath }),
                        None => None,
                    },
                    _ => None,
                };
                let ghost ev: Option<LeafEditV> = if edit is Some {
                    Some(
                        LeafEditV {
                            numeric_value: edit->0.numeric_value@,
                            path: steps_view(edit->0.path@),
                        },
                    )
                } else {
                    None
                };
                proof {
                    assert(ev == edit_of(fv[i as int], fpath_v));
                }
                out.push(DisplayRow { label, value_text: text, indent, edit });
                proof {
                    assert(tuple_struct_rows(suf, iv, path_v, reg, indent as int, i as int)
                        == seq![
                        RowV {
                            label: tuple_label(reg, iv, i as int),
                            value_text: simple_text(fv[i as int])->0,
                            indent: indent as int,
                            edit: edit_of(fv[i as int], fpath_v),
                        },
                    ] + tuple_struct_rows(
                        suf.subrange(1, suf.len() as int),
                        iv,
                        path_v,
                        reg,
                        indent as int,
                        i as int + 1,
                    ));
                    assert(rows_view(out@) =~= out_pre + seq![
                        RowV {
                            label: tuple_label(reg, iv, i as int),
                            value_text: simple_text(fv[i as int])->0,
                            indent: indent as int,
                            edit: edit_of(fv[i as int], fpath_v),
                        },
                    ]);
                }
            },
            None => {
                let hdr = header_text_exec(f);
                out.push(DisplayRow { label, value_text: hdr, indent, edit: None });
                let ghost out_mid = rows_view(out@);
                proof {
                    assert(out_mid =~= out_pre + seq![
                        RowV {
                            label: tuple_label(reg, iv, i as int),
                            value_text: header_text(fv[i as int]),
                            indent: indent as int,
                            edit: None,
                        },
                    ]);
                }
                let child_indent = deeper_exec(indent);
                extract_fields_from_reflect(f, out, child_indent, semantic_names, &fpath);
                proof {
                    assert(rows_view(out@) == out_mid + extract_rows(
                        fv[i as int],
                        fpath_v,
                        reg,
                        deeper(indent as int),
                    ));
                    assert(tuple_struct_rows(suf, iv, path_v, reg, indent as int, i as int)
                        == (seq![
                        RowV {
                            label: tuple_label(reg, iv, i as int),
                            value_text: header_text(fv[i as int]),
                            indent: indent as int,
                            edit: None,
                        },
                    ] + extract_rows(fv[i as int], fpath_v, reg, deeper(indent as int)))
                        + tuple_struct_rows(
                        suf.subrange(1, suf.len() as int),
                        iv,
                        path_v,
                        reg,
                        indent as int,
                        i as int + 1,
                    ));
                    assert(rows_view(out@) =~= out_pre + (seq![
                        RowV {
                            label: tuple_label(reg, iv, i as int),
                            value_text: header_text(fv[i as int]),
                            indent: indent as int,
                            edit: None,
                        },
                    ] + extract_rows(fv[i as int], fpath_v, reg, deeper(indent as int))));
                }
            },
        }
        proof {
            assert(rows_view(out@) + tuple_struct_rows(
                fv.subrange(i as int + 1, fv.len() as int),
                iv,
                path_v,
                reg,
                indent as int,
                i as int + 1,
            ) =~= base + tuple_struct_rows(fv, iv, path_v, reg, indent as int, 0));
        }
        i = i + 1;
    }
    proof {
        assert(fv.subrange(fv.len() as int, fv.len() as int) =~= Seq::<ValueV>::empty());
        assert(rows_view(out@) =~= base + tuple_struct_rows(
            fv,
            iv,
            path_v,
            reg,
            indent as int,
            0,
        ));
    }
}

/// Emits the rows for a tuple-shaped variant payload, following
/// [`payload_tuple_rows`].
#[verifier::loop_isolation(false)]
fn extract_payload_tuple(fields: &Vec<ReflectedValue>, out: &mut Vec<DisplayRow>, indent: u8)
    requires
        values_wf(values_view(fields@)),
    ensures
        rows_view(final(out)@) == rows_view(old(out)@) + payload_tuple_rows(
            values_view(fields@),
            indent as int,
            0,
        ),
{
    let ghost fv = values_view(fields@);
    let ghost base = rows_view(old(out)@);
    proof {
        lemma_values_view(fields@);
        lemma_values_wf(fv);
        assert(fv.subrange(0, fv.len() as int) =~= fv);
    }
    let mut i: usize = 0;
    while i < fields.len()
        invariant
            i <= fields@.len(),
            rows_view(out@) + payload_tuple_rows(
                fv.subrange(i as int, fv.len() as int),
                indent as int,
                i as int,
            ) == base + payload_tuple_rows(fv, indent as int, 0),
        decreases fields@.len() - i,
    {
        let ghost suf = fv.subrange(i as int, fv.len() as int);
        let ghost out_pre = rows_view(out@);
        proof {
            assert(suf[0] == fv[i as int]);
            assert(suf.subrange(1, suf.len() as int) =~= fv.subrange(
                i as int + 1,
                fv.len() as int,
            ));
            assert(fv[i as int] == value_view(fields@[i as int]));
            assert(value_wf(fv[i as int]));
        }
        let label = dot_index_label(i);
        match format_simple(&fields[i]) {
            Some(text) => {
                out.push(DisplayRow { label, value_text: text, indent, edit: None });
                proof {
                    assert(rows_view(out@) =~= out_pre + seq![
                        RowV {
                            label: seq!['.'] + text_of(dec_bytes(i as nat)),
                            value_text: simple_text(fv[i as int])->0,
                            indent: indent as int,
                            edit: None,
                        },
                    ]);
                }
            },
            None => {
                let hdr = header_text_exec(&fields[i]);
                out.push(DisplayRow { label, value_text: hdr, indent, edit: None });
                proof {
                    assert(rows_view(out@) =~= out_pre + seq![
                        RowV {
                            label: seq!['.'] + text_of(dec_bytes(i as nat)),
                            value_text: header_text(fv[i as int]),
                            indent: indent as int,
                            edit: None,
                        },
                    ]);
                }
            },
        }
        proof {
            assert(rows_view(out@) + payload_tuple_rows(
                fv.subrange(i as int + 1, fv.len() as int),
                indent as int,
                i as int + 1,
            ) =~= base + payload_tuple_rows(fv, indent as int, 0));
        }
        i = i + 1;
    }
    proof {
        assert(fv.subrange(fv.len() as int, fv.len() as int) =~= Seq::<ValueV>::empty());
        assert(rows_view(out@) =~= base + payload_tuple_rows(fv, indent as int, 0));
    }
}

/// Emits the rows for a struct-shaped variant payload, following
/// [`payload_struct_rows`].
#[verifier::loop_isolation(false)]
fn extract_payload_struct(fields: &Vec<NamedField>, out: &mut Vec<DisplayRow>, indent: u8)
    requires
        fields_wf(named_fields_view(fields@)),
    ensures
        rows_view(final(out)@) == rows_view(old(out)@) + payload_struct_rows(
            named_fields_view(fields@),
            indent as int,
        ),
{
    let ghost fv = named_fields_view(fields@);
    let ghost base = rows_view(old(out)@);
    proof {
        lemma_named_fields_view(fields@);
        lemma_fields_wf(fv);
        assert(fv.subrange(0, fv.len() as int) =~= fv);
    }
    let mut i: usize = 0;
    while i < fields.len()
        invariant
            i <= fields@.len(),
            rows_view(out@) + payload_struct_rows(
                fv.subrange(i as int, fv.len() as int),
                indent as int,
            ) == base + payload_struct_rows(fv, indent as int),
        decreases fields@.len() - i,
    {
        let ghost suf = fv.subrange(i as int, fv.len() as int);
        let ghost out_pre = rows_view(out@);
        proof {
            assert(suf[0] == fv[i as int]);
            assert(suf.subrange(1, suf.len() as int) =~= fv.subrange(
                i as int + 1,
                fv.len() as int,
            ));
            assert(fv[i as int].value == value_view(fields@[i as int].value));
            assert(value_wf(fv[i as int].value));
        }
        let f = &fields[i];
        match format_simple(&f.value) {
            Some(text) => {
                out.push(
                    DisplayRow {
                        label: f.name.clone(),
                        value_text: text,
                        indent,
                        edit: None,
                    },
                );
                proof {
                    assert(rows_view(out@) =~= out_pre + seq![
                        RowV {
                            label: fv[i as int].name,
                            value_text: simple_text(fv[i as int].value)->0,
                            indent: indent as int,
                            edit: None,
                        },
                    ]);
                }
            },
            None => {
                let hdr = header_text_exec(&f.value);
                out.push(
                    DisplayRow {
                        label: f.name.clone(),
                        value_text: hdr,
                        indent,
                        edit: None,
                    },
                );
                proof {
                    assert(rows_view(out@) =~= out_pre + seq![
                        RowV {
                            label: fv[i as int].name,
                            value_text: header_text(fv[i as int].value),
                            indent: indent as int,
                            edit: None,
                        },
                    ]);
                }
            },
        }
        proof {
            assert(rows_view(out@) + payload_struct_rows(
                fv.subrange(i as int + 1, fv.len() as int),
                indent as int,
            ) =~= base + payload_struct_rows(fv, indent as int));
        }
        i = i + 1;
    }
    proof {
        assert(fv.subrange(fv.len() as int, fv.len() as int) =~= Seq::<FieldV>::empty());
        assert(rows_view(out@) =~= base + payload_struct_rows(fv, indent as int));
    }
}


/// Traversal determinism: for a fixed input shape, registry and base
/// path, any two traversal passes produce identical row sequences,
/// because each pass is pinned to `extract_rows` of its inputs.
pub proof fn lemma_traversal_deterministic(
    rows1: Seq<RowV>,
    rows2: Seq<RowV>,
    v: ValueV,
    path: Seq<StepV>,
    reg: Map<u64, Vec<String>>,
    indent: int,
)
    requires
        rows1 == extract_rows(v, path, reg, indent),
        rows2 == extract_rows(v, path, reg, indent),
    ensures
        rows1 == rows2,
{
}

/// What the path round trip guarantees of one row: if the row is
/// editable, its recorded path extends the traversal's base path and,
/// replayed against the traversed value, reaches a numeric scalar leaf
/// holding exactly the row's value.
pub open spec fn row_edit_resolves(v: ValueV, base: Seq<StepV>, r: RowV) -> bool {
    r.edit matches Some(e) ==> {
        &&& base.len() < e.path.len()
        &&& e.path.subrange(0, base.len() as int) == base
        &&& resolve_spec(v, e.path.subrange(base.len() as int, e.path.len() as int)) matches Some(
            s,
        ) && s.is_numeric() && s.numeric_spec() == e.numeric_value
    }
}

/// Path round trip: every editable row the traversal emits carries a
/// locator that resolves, on the same unmodified value, to a numeric
/// scalar leaf with the row's value.
pub proof fn lemma_traversal_round_trip(
    v: ValueV,
    base: Seq<StepV>,
    reg: Map<u64, Vec<String>>,
    indent: int,
)
    requires
        value_wf(v),
    ensures
        forall|k: int|
            0 <= k < extract_rows(v, base, reg, indent).len() ==> row_edit_resolves(
                v,
                base,
                #[trigger] extract_rows(v, base, reg, indent)[k],
            ),
    decreases v, 1int, 0int,
{
    match v {
        ValueV::Struct { fields, .. } => {
            assert(fields.subrange(0, fields.len() as int) =~= fields);
            lemma_struct_rows_rt(v, fields, 0, base, reg, indent);
            let rows = extract_rows(v, base, reg, indent);
            assert forall|k: int| 0 <= k < rows.len() implies row_edit_resolves(
                v,
                base,
                rows[k],
            ) by {
                assert(rows == struct_rows(
                    fields.subrange(0, fields.len() as int),
                    base,
                    reg,
                    indent,
                ));
                assert(row_edit_resolves(
                    v,
                    base,
                    struct_rows(fields.subrange(0, fields.len() as int), base, reg, indent)[k],
                ));
            }
        },
        ValueV::TupleStruct { info, fields } => {
            assert(fields.subrange(0, fields.len() as int) =~= fields);
            lemma_tuple_rows_rt(v, fields, info, 0, base, reg, indent);
            let rows = extract_rows(v, base, reg, indent);
            assert forall|k: int| 0 <= k < rows.len() implies row_edit_resolves(
                v,
                base,
                rows[k],
            ) by {
                assert(rows == tuple_struct_rows(
                    fields.subrange(0, fields.len() as int),
                    info,
                    base,
                    reg,
                    indent,
                    0,
                ));
                assert(row_edit_resolves(
                    v,
                    base,
                    tuple_struct_rows(
                        fields.subrange(0, fields.len() as int),
                        info,
                        base,
                        reg,
                        indent,
                        0,
                    )[k],
                ));
            }
        },
        ValueV::Enum { variant_name, payload, .. } => {
            let rows = extract_rows(v, base, reg, indent);
            assert forall|k: int| 0 <= k < rows.len() implies row_edit_resolves(
                v,
                base,
                rows[k],
            ) by {
                if k >= 1 {
                    match payload {
                        PayloadV::Unit => {},
                        PayloadV::Tuple(fields) => {
                            lemma_payload_tuple_no_edit(fields, deeper(indent), 0);
                            assert(rows[k] == payload_tuple_rows(fields, deeper(indent), 0)[k
                                - 1]);
                        },
                        PayloadV::Struct(fields) => {
                            lemma_payload_struct_no_edit(fields, deeper(indent));
                            assert(rows[k] == payload_struct_rows(fields, deeper(indent))[k
                                - 1]);
                        },
                    }
                }
            }
        },
        _ => {},
    }
}

/// Variant tuple payload rows are never editable.
proof fn lemma_payload_tuple_no_edit(fields: Seq<ValueV>, indent: int, i: int)
    ensures
        forall|k: int|
            0 <= k < payload_tuple_rows(fields, indent, i).len() ==> (#[trigger] payload_tuple_rows(
                fields,
                indent,
                i,
            )[k]).edit is None,
    decreases fields,
{
    if fields.len() > 0 {
        lemma_payload_tuple_no_edit(fields.subrange(1, fields.len() as int), indent, i + 1);
    }
}

/// Variant struct payload rows are never editable.
proof fn lemma_payload_struct_no_edit(fields: Seq<FieldV>, indent: int)
    ensures
        forall|k: int|
            0 <= k < payload_struct_rows(fields, indent).len() ==> (#[trigger] payload_struct_rows(
                fields,
                indent,
            )[k]).edit is None,
    decreases fields,
{
    if fields.len() > 0 {
        lemma_payload_struct_no_edit(fields.subrange(1, fields.len() as int), indent);
    }
}

/// Lifts the round-trip property of a field's own rows through one
/// navigation step into the containing value.
proof fn lemma_lift_rows(
    v: ValueV,
    child: ValueV,
    step: StepV,
    base: Seq<StepV>,
    r: RowV,
)
    requires
        row_edit_resolves(child, base.push(step), r),
        resolve_one(v, step) == Some(child),
    ensures
        row_edit_resolves(v, base, r),
{
    if r.edit is Some {
        let e = r.edit->0;
        let b = base.len() as int;
        let bp = base.push(step);
        assert(e.path.subrange(0, b + 1) == bp);
        assert(e.path.subrange(0, b) =~= base) by {
            assert(forall|j: int| 0 <= j < b ==> e.path[j] == #[trigger] bp[j]);
        }
        let st = e.path.subrange(b, e.path.len() as int);
        assert(st[0] == e.path[b]);
        assert(e.path[b] == bp[b]);
        assert(st[0] == step);
        assert(st.subrange(1, st.len() as int) =~= e.path.subrange(b + 1, e.path.len() as int));
        lemma_resolve_step(v, step, child, st);
    }
}

/// Navigating one step from a composite value, as the resolver does.
pub open spec fn resolve_one(v: ValueV, step: StepV) -> Option<ValueV> {
    match step {
        StepV::Named(n) => match v {
            ValueV::Struct { fields, .. } => {
                let idx = field_index(fields, n);
                if idx >= 0 {
                    Some(fields[idx].value)
                } else {
                    None
                }
            },
            _ => None,
        },
        StepV::Index(i) => match v {
            ValueV::Struct { fields, .. } => if 0 <= i < fields.len() {
                Some(fields[i].value)
            } else {
                None
            },
            ValueV::TupleStruct { fields, .. } => if 0 <= i < fields.len() {
                Some(fields[i])
            } else {
                None
            },
            ValueV::Tuple { fields } => if 0 <= i < fields.len() {
                Some(fields[i])
            } else {
                None
            },
            _ => None,
        },
    }
}

/// The resolver descends by exactly [`resolve_one`] on a non-empty path.
proof fn lemma_resolve_step(v: ValueV, step: StepV, child: ValueV, st: Seq<StepV>)
    requires
        st.len() >= 1,
        st[0] == step,
        resolve_one(v, step) == Some(child),
    ensures
        resolve_spec(v, st) == resolve_spec(child, st.subrange(1, st.len() as int)),
{
}

/// Round trip for the rows of a struct's field suffix starting at `i`.
proof fn lemma_struct_rows_rt(
    v: ValueV,
    all: Seq<FieldV>,
    i: int,
    base: Seq<StepV>,
    reg: Map<u64, Vec<String>>,
    indent: int,
)
    requires
        value_wf(v),
        v matches ValueV::Struct { fields, .. } && fields == all,
        0 <= i <= all.len(),
    ensures
        forall|k: int|
            0 <= k < struct_rows(all.subrange(i, all.len() as int), base, reg, indent).len()
                ==> row_edit_resolves(
                v,
                base,
                #[trigger] struct_rows(all.subrange(i, all.len() as int), base, reg, indent)[k],
            ),
    decreases v, 0int, all.len() - i,
{
    let suf = all.subrange(i, all.len() as int);
    if suf.len() > 0 {
        lemma_fields_wf(all);
        assert(suf[0] == all[i]);
        assert(suf.subrange(1, suf.len() as int) =~= all.subrange(i + 1, all.len() as int));
        lemma_struct_rows_rt(v, all, i + 1, base, reg, indent);
        let f = all[i];
        let fpath = base.push(StepV::Named(f.name));
        // The recorded name resolves back to this very field.
        lemma_field_index(all, f.name);
        let fi = field_index(all, f.name);
        assert(fi == i) by {
            if fi < i {
                assert(all[fi].name == all[i].name);
            }
            if fi > i {
                assert(all[i].name != f.name);
            }
        }
        assert(resolve_one(v, StepV::Named(f.name)) == Some(f.value));
        let head: Seq<RowV> = match simple_text(f.value) {
            Some(t) => seq![
                RowV {
                    label: f.name,
                    value_text: t,
                    indent,
                    edit: edit_of(f.value, fpath),
                },
            ],
            None => seq![
                RowV { label: f.name, value_text: header_text(f.value), indent, edit: None },
            ] + extract_rows(f.value, fpath, reg, deeper(indent)),
        };
        assert(struct_rows(suf, base, reg, indent) == head + struct_rows(
            suf.subrange(1, suf.len() as int),
            base,
            reg,
            indent,
        ));
        match simple_text(f.value) {
            Some(t) => {
                lemma_leaf_row_rt(v, f.value, StepV::Named(f.name), base, head[0]);
            },
            None => {
                lemma_traversal_round_trip(f.value, fpath, reg, deeper(indent));
                assert forall|k: int| 0 <= k < head.len() implies row_edit_resolves(
                    v,
                    base,
                    head[k],
                ) by {
                    if k >= 1 {
                        let child_rows = extract_rows(f.value, fpath, reg, deeper(indent));
                        assert(head[k] == child_rows[k - 1]);
                        assert(row_edit_resolves(f.value, fpath, child_rows[k - 1]));
                        lemma_lift_rows(v, f.value, StepV::Named(f.name), base, head[k]);
                    }
                }
            },
        }
        assert forall|k: int|
            0 <= k < struct_rows(suf, base, reg, indent).len() implies row_edit_resolves(
            v,
            base,
            #[trigger] struct_rows(suf, base, reg, indent)[k],
        ) by {
            if k < head.len() {
                assert(struct_rows(suf, base, reg, indent)[k] == head[k]);
            } else {
                assert(struct_rows(suf, base, reg, indent)[k] == struct_rows(
                    suf.subrange(1, suf.len() as int),
                    base,
                    reg,
                    indent,
                )[k - head.len()]);
            }
        }
    }
}

/// Round trip for one editable leaf row: the single recorded step leads
/// straight to the leaf.
proof fn lemma_leaf_row_rt(v: ValueV, leaf: ValueV, step: StepV, base: Seq<StepV>, r: RowV)
    requires
        resolve_one(v, step) == Some(leaf),
        r.edit == edit_of(leaf, base.push(step)),
        r.edit matches Some(e) ==> e.path == base.push(step),
    ensures
        row_edit_resolves(v, base, r),
{
    if r.edit is Some {
        let e = r.edit->0;
        let s = match leaf {
            ValueV::Scalar(s) => s,
            _ => arbitrary(),
        };
        assert(e.path.subrange(0, base.len() as int) =~= base);
        let st = e.path.subrange(base.len() as int, e.path.len() as int);
        assert(st.len() == 1);
        assert(st[0] == step);
        lemma_resolve_step(v, step, leaf, st);
        assert(st.subrange(1, 1) =~= Seq::<StepV>::empty());
        assert(resolve_spec(leaf, st.subrange(1, 1)) == Some(s));
    }
}

/// Round trip for the rows of a tuple struct's field suffix starting at
/// `i`.
proof fn lemma_tuple_rows_rt(
    v: ValueV,
    all: Seq<ValueV>,
    info: Option<TypeInfoV>,
    i: int,
    base: Seq<StepV>,
    reg: Map<u64, Vec<String>>,
    indent: int,
)
    requires
        value_wf(v),
        v matches ValueV::TupleStruct { fields, .. } && fields == all,
        v matches ValueV::TupleStruct { info: vi, .. } && vi == info,
        0 <= i <= all.len(),
    ensures
        forall|k: int|
            0 <= k < tuple_struct_rows(
                all.subrange(i, all.len() as int),
                info,
                base,
                reg,
                indent,
                i,
            ).len() ==> row_edit_resolves(
                v,
                base,
                #[trigger] tuple_struct_rows(
                    all.subrange(i, all.len() as int),
                    info,
                    base,
                    reg,
                    indent,
                    i,
                )[k],
            ),
    decreases v, 0int, all.len() - i,
{
    let suf = all.subrange(i, all.len() as int);
    if suf.len() > 0 {
        lemma_values_wf(all);
        assert(suf[0] == all[i]);
        assert(suf.subrange(1, suf.len() as int) =~= all.subrange(i + 1, all.len() as int));
        lemma_tuple_rows_rt(v, all, info, i + 1, base, reg, indent);
        let f = all[i];
        let fpath = base.push(StepV::Index(i));
        assert(resolve_one(v, StepV::Index(i)) == Some(f));
        let label = tuple_label(reg, info, i);
        let head: Seq<RowV> = match simple_text(f) {
            Some(t) => seq![RowV { label, value_text: t, indent, edit: edit_of(f, fpath) }],
            None => seq![RowV { label, value_text: header_text(f), indent, edit: None }]
                + extract_rows(f, fpath, reg, deeper(indent)),
        };
        assert(tuple_struct_rows(suf, info, base, reg, indent, i) == head + tuple_struct_rows(
            suf.subrange(1, suf.len() as int),
            info,
            base,
            reg,
            indent,
            i + 1,
        ));
        match simple_text(f) {
            Some(t) => {
                lemma_leaf_row_rt(v, f, StepV::Index(i), base, head[0]);
            },
            None => {
                lemma_traversal_round_trip(f, fpath, reg, deeper(indent));
                assert forall|k: int| 0 <= k < head.len() implies row_edit_resolves(
                    v,
                    base,
                    head[k],
                ) by {
                    if k >= 1 {
                        let child_rows = extract_rows(f, fpath, reg, deeper(indent));
                        assert(head[k] == child_rows[k - 1]);
                        assert(row_edit_resolves(f, fpath, child_rows[k - 1]));
                        lemma_lift_rows(v, f, StepV::Index(i), base, head[k]);
                    }
                }
            },
        }
        assert forall|k: int|
            0 <= k < tuple_struct_rows(suf, info, base, reg, indent, i).len()
                implies row_edit_resolves(
            v,
            base,
            #[trigger] tuple_struct_rows(suf, info, base, reg, indent, i)[k],
        ) by {
            if k < head.len() {
                assert(tuple_struct_rows(suf, info, base, reg, indent, i)[k] == head[k]);
            } else {
                assert(tuple_struct_rows(suf, info, base, reg, indent, i)[k]
                    == tuple_struct_rows(
                    suf.subrange(1, suf.len() as int),
                    info,
                    base,
                    reg,
                    indent,
                    i + 1,
                )[k - head.len()]);
            }
        }
    }
}


/// Checks [`value_wf`] executably, so a host holding data of unknown
/// provenance can establish the traversal's precondition before calling
/// it: scalar payloads in range and struct field names distinct.
pub fn check_value_wf(v: &ReflectedValue) -> (r: bool)
    ensures
        r == value_wf(value_view(*v)),
    decreases *v, 1int,
{
    match v {
        ReflectedValue::Scalar(s) => match s {
            ScalarValue::F32(n) => -crate::num::VMAX <= n.v && n.v <= crate::num::VMAX,
            ScalarValue::F64(n) => -crate::num::VMAX <= n.v && n.v <= crate::num::VMAX,
            _ => true,
        },
        ReflectedValue::Struct { fields, .. } => {
            proof {
                lemma_named_fields_view(fields@);
            }
            check_fields_wf(fields) && check_names_distinct(fields)
        },
        ReflectedValue::TupleStruct { fields, .. } => check_values_wf(fields),
        ReflectedValue::Tuple { fields } => check_values_wf(fields),
        ReflectedValue::Enum { payload, .. } => match payload {
            VariantPayload::Unit => true,
            VariantPayload::Tuple(fields) => check_values_wf(fields),
            VariantPayload::Struct(fields) => check_fields_wf(fields),
        },
        _ => true,
    }
}

/// Checks [`values_wf`] executably.
#[verifier::loop_isolation(false)]
fn check_values_wf(fields: &Vec<ReflectedValue>) -> (r: bool)
    ensures
        r == values_wf(values_view(fields@)),
    decreases *fields, 0int,
{
    let ghost fv = values_view(fields@);
    proof {
        lemma_values_view(fields@);
    }
    let mut i: usize = 0;
    while i < fields.len()
        invariant
            i <= fields@.len(),
            forall|j: int| 0 <= j < i as int ==> value_wf(#[trigger] fv[j]),
        decreases fields@.len() - i,
    {
        if !check_value_wf(&fields[i]) {
            proof {
                lemma_values_wf_converse(fv, i as int);
            }
            return false;
        }
        i = i + 1;
    }
    proof {
        lemma_values_wf_from_pointwise(fv);
    }
    true
}

/// Checks the element part of the named-field well-formedness.
#[verifier::loop_isolation(false)]
fn check_fields_wf(fields: &Vec<NamedField>) -> (r: bool)
    ensures
        r == fields_wf(named_fields_view(fields@)),
    decreases *fields, 0int,
{
    let ghost fv = named_fields_view(fields@);
    proof {
        lemma_named_fields_view(fields@);
    }
    let mut i: usize = 0;
    while i < fields.len()
        invariant
            i <= fields@.len(),
            forall|j: int| 0 <= j < i as int ==> value_wf(#[trigger] fv[j].value),
        decreases fields@.len() - i,
    {
        if !check_value_wf(&fields[i].value) {
            proof {
                lemma_fields_wf_converse(fv, i as int);
            }
            return false;
        }
        i = i + 1;
    }
    proof {
        lemma_fields_wf_from_pointwise(fv);
    }
    true
}

/// Checks that no two fields share a name.
#[verifier::loop_isolation(false)]
fn check_names_distinct(fields: &Vec<NamedField>) -> (r: bool)
    ensures
        r == (forall|i: int, j: int|
            0 <= i < j < named_fields_view(fields@).len() ==> named_fields_view(fields@)[i].name
                != named_fields_view(fields@)[j].name),
{
    let ghost fv = named_fields_view(fields@);
    proof {
        lemma_named_fields_view(fields@);
    }
    let mut i: usize = 0;
    while i < fields.len()
        invariant
            i <= fields@.len(),
            forall|a: int, b: int|
                #![trigger fv[a].name, fv[b].name]
                0 <= a && a < i as int && a < b && b < fv.len() ==> fv[a].name != fv[b].name,
        decreases fields@.len() - i,
    {
        let mut j: usize = i + 1;
        while j < fields.len()
            invariant
                i + 1 <= j <= fields@.len(),
                forall|b: int|
                    #![trigger fv[b].name]
                    (i as int) < b && b < j as int ==> fv[i as int].name != fv[b].name,
            decreases fields@.len() - j,
        {
            if fields[i].name == fields[j].name {
                proof {
                    assert(fv[i as int].name == fv[j as int].name);
                }
                return false;
            }
            j = j + 1;
        }
        i = i + 1;
    }
    true
}

/// A sequence that is pointwise well-formed is well-formed.
proof fn lemma_values_wf_from_pointwise(s: Seq<ValueV>)
    requires
        forall|j: int| 0 <= j < s.len() ==> value_wf(#[trigger] s[j]),
    ensures
        values_wf(s),
    decreases s.len(),
{
    if s.len() > 0 {
        let sub = s.subrange(1, s.len() as int);
        assert(forall|j: int| 0 <= j < sub.len() ==> #[trigger] sub[j] == s[j + 1]);
        lemma_values_wf_from_pointwise(sub);
    }
}

/// A sequence with an ill-formed element is not well-formed.
proof fn lemma_values_wf_converse(s: Seq<ValueV>, i: int)
    requires
        0 <= i < s.len(),
        !value_wf(s[i]),
    ensures
        !values_wf(s),
    decreases i,
{
    if i > 0 {
        let sub = s.subrange(1, s.len() as int);
        assert(sub[i - 1] == s[i]);
        lemma_values_wf_converse(sub, i - 1);
    }
}

/// A named-field sequence that is pointwise well-formed is well-formed.
proof fn lemma_fields_wf_from_pointwise(s: Seq<FieldV>)
    requires
        forall|j: int| 0 <= j < s.len() ==> value_wf(#[trigger] s[j].value),
    ensures
        fields_wf(s),
    decreases s.len(),
{
    if s.len() > 0 {
        let sub = s.subrange(1, s.len() as int);
        assert(forall|j: int| 0 <= j < sub.len() ==> #[trigger] sub[j] == s[j + 1]);
        lemma_fields_wf_from_pointwise(sub);
    }
}

/// A named-field sequence with an ill-formed element is not well-formed.
proof fn lemma_fields_wf_converse(s: Seq<FieldV>, i: int)
    requires
        0 <= i < s.len(),
        !value_wf(s[i].value),
    ensures
        !fields_wf(s),
    decreases i,
{
    if i > 0 {
        let sub = s.subrange(1, s.len() as int);
        assert(sub[i - 1] == s[i]);
        lemma_fields_wf_converse(sub, i - 1);
    }
}

} // verus!
