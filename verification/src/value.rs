//! The closed shape model of reflected data.
//!
//! Every inspectable piece of state is described by a [`ReflectedValue`]:
//! a scalar leaf, a struct of named fields, a tuple struct or tuple of
//! positional fields, an enum with its active variant, a sized collection
//! summary, or an opaque remainder.  Traversal and write-back both match
//! exhaustively over this shape, so they work over any object without
//! per-type code.

use vstd::prelude::*;
use crate::num::{Num, SCALE, sat_in, trunc_div};
use crate::path::StepV;

verus! {

/// Kind of a scalar leaf.  The first six are the recognized numeric kinds;
/// only leaves of those kinds are editable.
#[derive(Clone, Copy, Debug, PartialEq, Eq, Structural)]
pub enum ScalarKind {
    Float32,
    Float64,
    Signed32,
    Signed64,
    Unsigned32,
    Unsigned64,
    Boolean,
    Character,
}

/// A scalar leaf value.  Floating-point leaves carry the library's exact
/// scaled decimal; the host converts its native representation at the
/// boundary.
#[derive(Clone, Copy, Debug, PartialEq, Eq, Structural)]
pub enum ScalarValue {
    F32(Num),
    F64(Num),
    I32(i32),
    I64(i64),
    U32(u32),
    U64(u64),
    Bool(bool),
    Char(char),
}

/// Identifying information reflected off a composite value's type.
#[derive(Clone, Debug, PartialEq)]
pub struct TypeInfo {
    /// Host-assigned key identifying the concrete type.
    pub type_key: u64,
    /// Short display name of the type.
    pub short_name: String,
}

/// A named field of a struct-shaped value.
#[derive(Debug, PartialEq)]
pub struct NamedField {
    pub name: String,
    pub value: ReflectedValue,
}

/// Payload of an enum-shaped value's active variant.
#[derive(Debug, PartialEq)]
pub enum VariantPayload {
    Unit,
    Tuple(Vec<ReflectedValue>),
    Struct(Vec<NamedField>),
}

/// The structural shape of one reflected piece of data.
#[derive(Debug, PartialEq)]
pub enum ReflectedValue {
    Scalar(ScalarValue),
    Struct { info: Option<TypeInfo>, fields: Vec<NamedField> },
    TupleStruct { info: Option<TypeInfo>, fields: Vec<ReflectedValue> },
    Tuple { fields: Vec<ReflectedValue> },
    Enum { info: Option<TypeInfo>, variant_name: String, payload: VariantPayload },
    List { len: usize },
    Array { len: usize },
    MapLike { len: usize },
    SetLike { len: usize },
    Opaque { text: String },
}

/// Mathematical shape of [`TypeInfo`].
#[verifier::ext_equal]
pub struct TypeInfoV {
    pub type_key: int,
    pub short_name: Seq<char>,
}

/// Mathematical shape of [`NamedField`].
#[verifier::ext_equal]
pub struct FieldV {
    pub name: Seq<char>,
    pub value: ValueV,
}

/// Mathematical shape of [`VariantPayload`].
#[verifier::ext_equal]
pub enum PayloadV {
    Unit,
    Tuple(Seq<ValueV>),
    Struct(Seq<FieldV>),
}

/// Mathematical shape of [`ReflectedValue`].
#[verifier::ext_equal]
pub enum ValueV {
    Scalar(ScalarValue),
    Struct { info: Option<TypeInfoV>, fields: Seq<FieldV> },
    TupleStruct { info: Option<TypeInfoV>, fields: Seq<ValueV> },
    Tuple { fields: Seq<ValueV> },
    Enum { info: Option<TypeInfoV>, variant_name: Seq<char>, payload: PayloadV },
    List { len: int },
    Array { len: int },
    MapLike { len: int },
    SetLike { len: int },
    Opaque { text: Seq<char> },
}

/// View of an optional type description.
pub open spec fn info_view(info: Option<TypeInfo>) -> Option<TypeInfoV> {
    match info {
        Some(t) => Some(TypeInfoV { type_key: t.type_key as int, short_name: t.short_name@ }),
        None => None,
    }
}

/// View of one reflected value.
pub open spec fn value_view(v: ReflectedValue) -> ValueV
    decreases v,
{
    match v {
        ReflectedValue::Scalar(s) => ValueV::Scalar(s),
        ReflectedValue::Struct { info, fields } => ValueV::Struct {
            info: info_view(info),
            fields: named_fields_view(fields@),
        },
        ReflectedValue::TupleStruct { info, fields } => ValueV::TupleStruct {
            info: info_view(info),
            fields: values_view(fields@),
        },
        ReflectedValue::Tuple { fields } => ValueV::Tuple { fields: values_view(fields@) },
        ReflectedValue::Enum { info, variant_name, payload } => ValueV::Enum {
            info: info_view(info),
            variant_name: variant_name@,
            payload: match payload {
                VariantPayload::Unit => PayloadV::Unit,
                VariantPayload::Tuple(fields) => PayloadV::Tuple(values_view(fields@)),
                VariantPayload::Struct(fields) => PayloadV::Struct(named_fields_view(fields@)),
            },
        },
        ReflectedValue::List { len } => ValueV::List { len: len as int },
        ReflectedValue::Array { len } => ValueV::Array { len: len as int },
        ReflectedValue::MapLike { len } => ValueV::MapLike { len: len as int },
        ReflectedValue::SetLike { len } => ValueV::SetLike { len: len as int },
        ReflectedValue::Opaque { text } => ValueV::Opaque { text: text@ },
    }
}

/// Views of a sequence of positional fields.
pub open spec fn values_view(s: Seq<ReflectedValue>) -> Seq<ValueV>
    decreases s,
{
    if s.len() == 0 {
        Seq::empty()
    } else {
        seq![value_view(s[0])] + values_view(s.subrange(1, s.len() as int))
    }
}

/// Views of a sequence of named fields.
pub open spec fn named_fields_view(s: Seq<NamedField>) -> Seq<FieldV>
    decreases s,
{
    if s.len() == 0 {
        Seq::empty()
    } else {
        seq![FieldV { name: s[0].name@, value: value_view(s[0].value) }] + named_fields_view(
            s.subrange(1, s.len() as int),
        )
    }
}

/// `values_view` maps the sequence pointwise.
pub proof fn lemma_values_view(s: Seq<ReflectedValue>)
    ensures
        values_view(s).len() == s.len(),
        forall|i: int| 0 <= i < s.len() ==> values_view(s)[i] == value_view(s[i]),
    decreases s.len(),
{
    if s.len() > 0 {
        lemma_values_view(s.subrange(1, s.len() as int));
    }
}

/// `named_fields_view` maps the sequence pointwise.
pub proof fn lemma_named_fields_view(s: Seq<NamedField>)
    ensures
        named_fields_view(s).len() == s.len(),
        forall|i: int|
            0 <= i < s.len() ==> named_fields_view(s)[i] == (FieldV {
                name: s[i].name@,
                value: value_view(s[i].value),
            }),
    decreases s.len(),
{
    if s.len() > 0 {
        lemma_named_fields_view(s.subrange(1, s.len() as int));
    }
}

impl View for ReflectedValue {
    type V = ValueV;

    open spec fn view(&self) -> ValueV {
        value_view(*self)
    }
}

impl ScalarValue {
    /// The kind of this scalar.
    pub open spec fn kind(self) -> ScalarKind {
        match self {
            ScalarValue::F32(_) => ScalarKind::Float32,
            ScalarValue::F64(_) => ScalarKind::Float64,
            ScalarValue::I32(_) => ScalarKind::Signed32,
            ScalarValue::I64(_) => ScalarKind::Signed64,
            ScalarValue::U32(_) => ScalarKind::Unsigned32,
            ScalarValue::U64(_) => ScalarKind::Unsigned64,
            ScalarValue::Bool(_) => ScalarKind::Boolean,
            ScalarValue::Char(_) => ScalarKind::Character,
        }
    }

    /// Whether the scalar is one of the six recognized numeric kinds.
    pub open spec fn is_numeric(self) -> bool {
        !(self is Bool || self is Char)
    }

    /// The scalar's numeric value as a scaled integer.  Meaningful only
    /// for numeric kinds.
    pub open spec fn numeric_spec(self) -> int {
        match self {
            ScalarValue::F32(n) => n@,
            ScalarValue::F64(n) => n@,
            ScalarValue::I32(x) => x as int * SCALE as int,
            ScalarValue::I64(x) => x as int * SCALE as int,
            ScalarValue::U32(x) => x as int * SCALE as int,
            ScalarValue::U64(x) => x as int * SCALE as int,
            ScalarValue::Bool(_) => 0,
            ScalarValue::Char(_) => 0,
        }
    }

    /// Whether any floating payload lies within the representable range.
    pub open spec fn wf(self) -> bool {
        match self {
            ScalarValue::F32(n) => n.wf(),
            ScalarValue::F64(n) => n.wf(),
            _ => true,
        }
    }
}

/// Tries to extract a numeric value from a scalar leaf.  Exactly the six
/// recognized numeric kinds yield a value; booleans and characters do not.
pub fn try_extract_numeric(s: &ScalarValue) -> (r: Option<Num>)
    requires
        s.wf(),
    ensures
        r is Some <==> s.is_numeric(),
        r is Some ==> r->0.wf() && r->0@ == s.numeric_spec(),
{
    match s {
        ScalarValue::F32(n) => Some(*n),
        ScalarValue::F64(n) => Some(*n),
        ScalarValue::I32(x) => Some(Num::from_i32(*x)),
        ScalarValue::I64(x) => Some(Num::from_i64(*x)),
        ScalarValue::U32(x) => Some(Num::from_u32(*x)),
        ScalarValue::U64(x) => Some(Num::from_u64(*x)),
        ScalarValue::Bool(_) => None,
        ScalarValue::Char(_) => None,
    }
}

/// Result of coercing the scaled value `x` into the kind of the target
/// scalar `target`: floating targets take the value unchanged, integer
/// targets truncate toward zero and saturate into their range (unsigned
/// targets clamp negative values to zero), and non-numeric targets refuse
/// the write.
pub open spec fn coerce_spec(target: ScalarValue, x: int) -> Option<ScalarValue> {
    match target {
        ScalarValue::F32(_) => Some(ScalarValue::F32(Num { v: x as i128 })),
        ScalarValue::F64(_) => Some(ScalarValue::F64(Num { v: x as i128 })),
        ScalarValue::I32(_) => Some(
            ScalarValue::I32(
                sat_in(trunc_div(x, SCALE as int), i32::MIN as int, i32::MAX as int) as i32,
            ),
        ),
        ScalarValue::I64(_) => Some(
            ScalarValue::I64(
                sat_in(trunc_div(x, SCALE as int), i64::MIN as int, i64::MAX as int) as i64,
            ),
        ),
        ScalarValue::U32(_) => Some(
            ScalarValue::U32(sat_in(trunc_div(x, SCALE as int), 0, u32::MAX as int) as u32),
        ),
        ScalarValue::U64(_) => Some(
            ScalarValue::U64(sat_in(trunc_div(x, SCALE as int), 0, u64::MAX as int) as u64),
        ),
        ScalarValue::Bool(_) => None,
        ScalarValue::Char(_) => None,
    }
}

/// Coerces the numeric value `n` into the kind of the target scalar,
/// following [`coerce_spec`].
pub fn coerce_into(target: &ScalarValue, n: Num) -> (r: Option<ScalarValue>)
    requires
        n.wf(),
    ensures
        r == coerce_spec(*target, n@),
        r is Some ==> r->0.wf(),
{
    match target {
        ScalarValue::F32(_) => Some(ScalarValue::F32(n)),
        ScalarValue::F64(_) => Some(ScalarValue::F64(n)),
        ScalarValue::I32(_) => Some(ScalarValue::I32(n.to_i32_sat())),
        ScalarValue::I64(_) => Some(ScalarValue::I64(n.to_i64_sat())),
        ScalarValue::U32(_) => Some(ScalarValue::U32(n.to_u32_sat())),
        ScalarValue::U64(_) => Some(ScalarValue::U64(n.to_u64_sat())),
        ScalarValue::Bool(_) => None,
        ScalarValue::Char(_) => None,
    }
}


/// Index of the first field named `n`, or `-1` when no field has that name.
pub open spec fn field_index(fields: Seq<FieldV>, n: Seq<char>) -> int
    decreases fields.len(),
{
    if fields.len() == 0 {
        -1
    } else if fields[0].name == n {
        0
    } else {
        let r = field_index(fields.subrange(1, fields.len() as int), n);
        if r < 0 {
            -1
        } else {
            r + 1
        }
    }
}

/// `field_index` finds the first field with the given name, when one exists.
pub proof fn lemma_field_index(fields: Seq<FieldV>, n: Seq<char>)
    ensures
        -1 <= field_index(fields, n) < fields.len(),
        field_index(fields, n) >= 0 ==> fields[field_index(fields, n)].name == n,
        field_index(fields, n) == -1 ==> forall|i: int|
            0 <= i < fields.len() ==> fields[i].name != n,
        forall|i: int| 0 <= i < field_index(fields, n) ==> fields[i].name != n,
    decreases fields.len(),
{
    if fields.len() > 0 && fields[0].name != n {
        let sub = fields.subrange(1, fields.len() as int);
        lemma_field_index(sub, n);
        assert(forall|i: int| 1 <= i < fields.len() ==> fields[i] == #[trigger] sub[i - 1]);
        let r = field_index(sub, n);
        if r == -1 {
            assert forall|i: int| 0 <= i < fields.len() implies fields[i].name != n by {
                if i >= 1 {
                    assert(fields[i] == sub[i - 1]);
                }
            }
        } else {
            assert forall|i: int| 0 <= i < field_index(fields, n) implies fields[i].name != n by {
                if i >= 1 {
                    assert(fields[i] == sub[i - 1]);
                }
            }
        }
    }
}

/// Replays `steps` against `v` and yields the scalar leaf they reach, or
/// `None` when a step does not fit the shape it meets or runs out of
/// range, or when the walk ends on a non-scalar.
///
/// A `Named` step fits only a struct shape; an `Index` step fits a
/// struct, tuple-struct or tuple shape.
pub open spec fn resolve_spec(v: ValueV, steps: Seq<StepV>) -> Option<ScalarValue>
    decreases steps.len(),
{
    if steps.len() == 0 {
        match v {
            ValueV::Scalar(s) => Some(s),
            _ => None,
        }
    } else {
        let rest = steps.subrange(1, steps.len() as int);
        match steps[0] {
            StepV::Named(n) => match v {
                ValueV::Struct { fields, .. } => {
                    let idx = field_index(fields, n);
                    if idx >= 0 {
                        resolve_spec(fields[idx].value, rest)
                    } else {
                        None
                    }
                },
                _ => None,
            },
            StepV::Index(i) => match v {
                ValueV::Struct { fields, .. } => if 0 <= i < fields.len() {
                    resolve_spec(fields[i].value, rest)
                } else {
                    None
                },
                ValueV::TupleStruct { fields, .. } => if 0 <= i < fields.len() {
                    resolve_spec(fields[i], rest)
                } else {
                    None
                },
                ValueV::Tuple { fields } => if 0 <= i < fields.len() {
                    resolve_spec(fields[i], rest)
                } else {
                    None
                },
                _ => None,
            },
        }
    }
}

/// Replays `steps` against `v` and writes the scaled value `x` into the
/// scalar leaf they reach, coercing by [`coerce_spec`].  `None` when the
/// walk fails or the leaf's kind is not numeric; otherwise the value with
/// exactly that leaf replaced.
pub open spec fn write_spec(v: ValueV, steps: Seq<StepV>, x: int) -> Option<ValueV>
    decreases steps.len(),
{
    if steps.len() == 0 {
        match v {
            ValueV::Scalar(s) => match coerce_spec(s, x) {
                Some(ns) => Some(ValueV::Scalar(ns)),
                None => None,
            },
            _ => None,
        }
    } else {
        let rest = steps.subrange(1, steps.len() as int);
        match steps[0] {
            StepV::Named(n) => match v {
                ValueV::Struct { info, fields } => {
                    let idx = field_index(fields, n);
                    if idx >= 0 {
                        match write_spec(fields[idx].value, rest, x) {
                            Some(nv) => Some(
                                ValueV::Struct {
                                    info,
                                    fields: fields.update(
                                        idx,
                                        FieldV { name: fields[idx].name, value: nv },
                                    ),
                                },
                            ),
                            None => None,
                        }
                    } else {
                        None
                    }
                },
                _ => None,
            },
            StepV::Index(i) => match v {
                ValueV::Struct { info, fields } => if 0 <= i < fields.len() {
                    match write_spec(fields[i].value, rest, x) {
                        Some(nv) => Some(
                            ValueV::Struct {
                                info,
                                fields: fields.update(
                                    i,
                                    FieldV { name: fields[i].name, value: nv },
                                ),
                            },
                        ),
                        None => None,
                    }
                } else {
                    None
                },
                ValueV::TupleStruct { info, fields } => if 0 <= i < fields.len() {
                    match write_spec(fields[i], rest, x) {
                        Some(nv) => Some(
                            ValueV::TupleStruct { info, fields: fields.update(i, nv) },
                        ),
                        None => None,
                    }
                } else {
                    None
                },
                ValueV::Tuple { fields } => if 0 <= i < fields.len() {
                    match write_spec(fields[i], rest, x) {
                        Some(nv) => Some(ValueV::Tuple { fields: fields.update(i, nv) }),
                        None => None,
                    }
                } else {
                    None
                },
                _ => None,
            },
        }
    }
}

/// A write succeeds exactly where the walk reaches a numeric scalar leaf.
pub proof fn lemma_write_resolves(v: ValueV, steps: Seq<StepV>, x: int)
    ensures
        write_spec(v, steps, x) is Some <==> (resolve_spec(v, steps) is Some
            && resolve_spec(v, steps)->0.is_numeric()),
    decreases steps.len(),
{
    if steps.len() == 0 {
    } else {
        let rest = steps.subrange(1, steps.len() as int);
        match steps[0] {
            StepV::Named(n) => match v {
                ValueV::Struct { info, fields } => {
                    let idx = field_index(fields, n);
                    if idx >= 0 {
                        lemma_field_index(fields, n);
                        lemma_write_resolves(fields[idx].value, rest, x);
                    }
                },
                _ => {},
            },
            StepV::Index(i) => match v {
                ValueV::Struct { info, fields } => {
                    if 0 <= i < fields.len() {
                        lemma_write_resolves(fields[i].value, rest, x);
                    }
                },
                ValueV::TupleStruct { info, fields } => {
                    if 0 <= i < fields.len() {
                        lemma_write_resolves(fields[i], rest, x);
                    }
                },
                ValueV::Tuple { fields } => {
                    if 0 <= i < fields.len() {
                        lemma_write_resolves(fields[i], rest, x);
                    }
                },
                _ => {},
            },
        }
    }
}


/// Coercing a numeric leaf's own current value into its own kind gives
/// the leaf back unchanged.
pub proof fn lemma_coerce_self(s: ScalarValue)
    requires
        s.is_numeric(),
        s.wf(),
    ensures
        coerce_spec(s, s.numeric_spec()) == Some(s),
{
    vstd::arithmetic::div_mod::lemma_div_by_multiple(0, SCALE as int);
    match s {
        ScalarValue::I32(x) => {
            lemma_trunc_of_scaled(x as int);
        },
        ScalarValue::I64(x) => {
            lemma_trunc_of_scaled(x as int);
        },
        ScalarValue::U32(x) => {
            lemma_trunc_of_scaled(x as int);
        },
        ScalarValue::U64(x) => {
            lemma_trunc_of_scaled(x as int);
        },
        _ => {},
    }
}

/// Scaling an integer and truncating back is the identity.
proof fn lemma_trunc_of_scaled(x: int)
    ensures
        trunc_div(x * (SCALE as int), SCALE as int) == x,
{
    if x >= 0 {
        vstd::arithmetic::div_mod::lemma_div_by_multiple(x, SCALE as int);
    } else {
        vstd::arithmetic::div_mod::lemma_div_by_multiple(-x, SCALE as int);
        assert((-x) * (SCALE as int) == -(x * (SCALE as int)));
    }
}

/// Writing a leaf's own current value back through its path leaves the
/// whole value unchanged: a no-op edit does not disturb the object.
pub proof fn lemma_write_self(v: ValueV, steps: Seq<StepV>)
    requires
        resolve_spec(v, steps) is Some,
        resolve_spec(v, steps)->0.is_numeric(),
        resolve_spec(v, steps)->0.wf(),
    ensures
        write_spec(v, steps, resolve_spec(v, steps)->0.numeric_spec()) == Some(v),
    decreases steps.len(),
{
    let s = resolve_spec(v, steps)->0;
    if steps.len() == 0 {
        lemma_coerce_self(s);
    } else {
        let rest = steps.subrange(1, steps.len() as int);
        match steps[0] {
            StepV::Named(n) => match v {
                ValueV::Struct { info, fields } => {
                    let idx = field_index(fields, n);
                    lemma_field_index(fields, n);
                    lemma_write_self(fields[idx].value, rest);
                    assert(FieldV { name: fields[idx].name, value: fields[idx].value } =~= fields[
                        idx
                    ]);
                    assert(fields.update(idx, fields[idx]) =~= fields);
                },
                _ => {},
            },
            StepV::Index(i) => match v {
                ValueV::Struct { info, fields } => {
                    lemma_write_self(fields[i].value, rest);
                    assert(FieldV { name: fields[i].name, value: fields[i].value } =~= fields[i]);
                    assert(fields.update(i, fields[i]) =~= fields);
                },
                ValueV::TupleStruct { info, fields } => {
                    lemma_write_self(fields[i], rest);
                    assert(fields.update(i, fields[i]) =~= fields);
                },
                ValueV::Tuple { fields } => {
                    lemma_write_self(fields[i], rest);
                    assert(fields.update(i, fields[i]) =~= fields);
                },
                _ => {},
            },
        }
    }
}

} // verus!
