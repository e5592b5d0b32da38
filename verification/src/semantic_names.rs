//! Semantic field-name registry for tuple structs.
//!
//! Maps a type key and a positional index to a human label ("x", "y",
//! "z") instead of a numeric index.  Purely cosmetic: traversal consults
//! it and falls back to positional labels where no entry exists.  The
//! host registers its own vector-like types, since type keys are
//! host-assigned.

use vstd::prelude::*;
use vstd::string::StringExecFns;
use std::collections::HashMap;

verus! {

broadcast use vstd::std_specs::hash::group_hash_axioms;

/// Registry mapping type keys to semantic field names for tuple structs.
pub struct SemanticFieldNames {
    pub overrides: HashMap<u64, Vec<String>>,
}

impl View for SemanticFieldNames {
    type V = Map<u64, Vec<String>>;

    open spec fn view(&self) -> Map<u64, Vec<String>> {
        self.overrides@
    }
}

/// The label the registry gives the field at `index` of the type with
/// key `type_key`, when it has one.
pub open spec fn lookup_spec(m: Map<u64, Vec<String>>, type_key: u64, index: int) -> Option<
    Seq<char>,
> {
    if m.contains_key(type_key) && 0 <= index < m[type_key]@.len() {
        Some(m[type_key]@[index]@)
    } else {
        None
    }
}

impl SemanticFieldNames {
    /// Creates an empty registry.  The host seeds it with its own
    /// fixed-arity vector types through [`Self::register`] or
    /// [`Self::register_axis_names`].
    pub fn new() -> (r: SemanticFieldNames)
        ensures
            r@ == Map::<u64, Vec<String>>::empty(),
    {
        SemanticFieldNames { overrides: HashMap::new() }
    }

    /// Registers semantic field names for a type; the names match the
    /// order of the fields.
    pub fn register(&mut self, type_key: u64, names: Vec<String>)
        ensures
            final(self)@ == old(self)@.insert(type_key, names),
    {
        self.overrides.insert(type_key, names);
    }

    /// Registers the conventional axis names (`x`, `y`, `z`, `w`) for a
    /// vector-like type with the given number of components, up to four.
    pub fn register_axis_names(&mut self, type_key: u64, arity: usize)
        requires
            1 <= arity <= 4,
        ensures
            final(self)@.contains_key(type_key),
            final(self)@ == old(self)@.insert(type_key, final(self)@[type_key]),
            final(self)@[type_key]@.len() == arity as int,
            final(self)@[type_key]@.len() >= 1 ==> final(self)@[type_key]@[0]@ == "x"@,
            final(self)@[type_key]@.len() >= 2 ==> final(self)@[type_key]@[1]@ == "y"@,
            final(self)@[type_key]@.len() >= 3 ==> final(self)@[type_key]@[2]@ == "z"@,
            final(self)@[type_key]@.len() >= 4 ==> final(self)@[type_key]@[3]@ == "w"@,
    {
        let mut names: Vec<String> = Vec::new();
        names.push(String::from_str("x"));
        if arity >= 2 {
            names.push(String::from_str("y"));
        }
        if arity >= 3 {
            names.push(String::from_str("z"));
        }
        if arity >= 4 {
            names.push(String::from_str("w"));
        }
        self.overrides.insert(type_key, names);
    }

    /// The semantic field name for a tuple-struct field, or `None` when
    /// the type has no override or the index is out of bounds.
    pub fn get_field_name(&self, type_key: u64, index: usize) -> (r: Option<String>)
        ensures
            match r {
                Some(name) => lookup_spec(self@, type_key, index as int) == Some(name@),
                None => lookup_spec(self@, type_key, index as int) is None,
            },
    {
        match self.overrides.get(&type_key) {
            Some(names) => if index < names.len() {
                Some(names[index].clone())
            } else {
                None
            },
            None => None,
        }
    }

    /// Whether a type has semantic field names registered.
    pub fn has_override(&self, type_key: u64) -> (r: bool)
        ensures
            r == self@.contains_key(type_key),
    {
        self.overrides.contains_key(&type_key)
    }
}

} // verus!
