//! Dispatch over the validator kinds.
//!
//! A schema node names its kind under the key `"type"`. The kinds are tried in
//! this fixed order, and the first whose tag matches compiles the node:
//! `"model"`, `"string"`, `"int"`, `"bool"`. No two kinds share a tag.
use vstd::prelude::*;

use crate::errors::{outcome_view, single_error, ErrorView, LocItemView, Location, ValidationError};
use crate::model::{model_build_spec, model_validate_spec, FieldView, ModelValidator};
use crate::value::{entries_view, find_key, key_index, lemma_entries_view, Value, ValueView};

verus! {

/// The compiled model of a validator.
pub ghost enum SchemaView {
    Model(Seq<FieldView>),
    Str,
    Int,
    Bool,
}

/// Why a schema node could not be compiled.
#[derive(Debug, PartialEq, Eq)]
pub enum BuildError {
    /// The schema node is not a mapping.
    NotAMapping,
    /// The schema node has no `"type"` entry.
    MissingType,
    /// The `"type"` entry is not a string.
    TypeNotAString,
    /// No validator kind has this tag.
    UnknownType(String),
    /// The `"fields"` entry of a model is not a mapping.
    FieldsNotAMapping,
    /// The definition of the named field is not a mapping.
    FieldNotAMapping(String),
    /// The `"required"` entry of the named field is not a boolean.
    RequiredNotABool(String),
}

/// The mathematical model of a [`BuildError`].
pub ghost enum BuildErrorView {
    NotAMapping,
    MissingType,
    TypeNotAString,
    UnknownType(Seq<char>),
    FieldsNotAMapping,
    FieldNotAMapping(Seq<char>),
    RequiredNotABool(Seq<char>),
}

impl View for BuildError {
    type V = BuildErrorView;

    open spec fn view(&self) -> BuildErrorView {
        match self {
            BuildError::NotAMapping => BuildErrorView::NotAMapping,
            BuildError::MissingType => BuildErrorView::MissingType,
            BuildError::TypeNotAString => BuildErrorView::TypeNotAString,
            BuildError::UnknownType(t) => BuildErrorView::UnknownType(t@),
            BuildError::FieldsNotAMapping => BuildErrorView::FieldsNotAMapping,
            BuildError::FieldNotAMapping(n) => BuildErrorView::FieldNotAMapping(n@),
            BuildError::RequiredNotABool(n) => BuildErrorView::RequiredNotABool(n@),
        }
    }
}

/// The tag of string validators.
pub open spec fn str_tag() -> Seq<char> {
    "string"@
}

/// The tag of integer validators.
pub open spec fn int_tag() -> Seq<char> {
    "int"@
}

/// The tag of boolean validators.
pub open spec fn bool_tag() -> Seq<char> {
    "bool"@
}

/// The tag of model validators.
pub open spec fn model_tag() -> Seq<char> {
    "model"@
}

/// The message of an error that rejects a value of the wrong kind.
pub open spec fn kind_message(kind: SchemaView) -> Seq<char> {
    match kind {
        SchemaView::Model(_) => "Input should be a mapping"@,
        SchemaView::Str => "Input should be a string"@,
        SchemaView::Int => "Input should be an integer"@,
        SchemaView::Bool => "Input should be a boolean"@,
    }
}

/// The single error that rejects a value of the wrong kind at `loc`.
pub open spec fn kind_error(kind: SchemaView, loc: Seq<LocItemView>) -> Seq<ErrorView> {
    seq![ErrorView { location: loc, message: kind_message(kind) }]
}

/// What compiling the schema node `node` gives.
pub open spec fn build_spec(node: ValueView) -> Result<SchemaView, BuildErrorView>
    decreases node, 1int,
{
    match node {
        ValueView::Dict(entries) => match key_index(entries, "type"@) {
            Some(i) => if 0 <= i < entries.len() {
                match entries[i].1 {
                    ValueView::Str(tag) => if tag == model_tag() {
                        model_build_spec(node)
                    } else if tag == str_tag() {
                        Ok(SchemaView::Str)
                    } else if tag == int_tag() {
                        Ok(SchemaView::Int)
                    } else if tag == bool_tag() {
                        Ok(SchemaView::Bool)
                    } else {
                        Err(BuildErrorView::UnknownType(tag))
                    },
                    _ => Err(BuildErrorView::TypeNotAString),
                }
            } else {
                Err(BuildErrorView::MissingType)
            },
            None => Err(BuildErrorView::MissingType),
        },
        _ => Err(BuildErrorView::NotAMapping),
    }
}

/// What validating `input` at `loc` with the validator `s` gives.
pub open spec fn validate_spec(s: SchemaView, input: ValueView, loc: Seq<LocItemView>) -> Result<
    ValueView,
    Seq<ErrorView>,
>
    decreases s, 0int,
{
    match s {
        SchemaView::Model(fields) => model_validate_spec(fields, input, loc),
        SchemaView::Str => if input is Str {
            Ok(input)
        } else {
            Err(kind_error(s, loc))
        },
        SchemaView::Int => if input is Int {
            Ok(input)
        } else {
            Err(kind_error(s, loc))
        },
        SchemaView::Bool => if input is Bool {
            Ok(input)
        } else {
            Err(kind_error(s, loc))
        },
    }
}

/// The model of the outcome of a build.
pub open spec fn build_outcome_view<T: View>(r: Result<T, BuildError>) -> Result<T::V, BuildErrorView> {
    match r {
        Ok(v) => Ok(v@),
        Err(e) => Err(e@),
    }
}

/// Validates strings: a string is returned as it is.
pub struct StrValidator;

impl StrValidator {
    /// Whether this kind compiles a schema node with the tag `type_`.
    pub fn is_match(type_: &String, _schema: &Value) -> (r: bool)
        ensures
            r == (type_@ == str_tag()),
    {
        let tag = "string".to_owned();
        *type_ == tag
    }

    /// Checks that `input` is a string.
    pub fn validate(&self, input: &Value, loc: &Location) -> (r: Result<Value, Vec<ValidationError>>)
        ensures
            outcome_view(r) == validate_spec(SchemaView::Str, input@, loc@),
    {
        match input {
            Value::Str(s) => Ok(Value::Str(s.clone())),
            _ => Err(single_error(loc, "Input should be a string")),
        }
    }
}

/// Validates integers: an integer is returned as it is.
pub struct IntValidator;

impl IntValidator {
    /// Whether this kind compiles a schema node with the tag `type_`.
    pub fn is_match(type_: &String, _schema: &Value) -> (r: bool)
        ensures
            r == (type_@ == int_tag()),
    {
        let tag = "int".to_owned();
        *type_ == tag
    }

    /// Checks that `input` is an integer.
    pub fn validate(&self, input: &Value, loc: &Location) -> (r: Result<Value, Vec<ValidationError>>)
        ensures
            outcome_view(r) == validate_spec(SchemaView::Int, input@, loc@),
    {
        match input {
            Value::Int(i) => Ok(Value::Int(*i)),
            _ => Err(single_error(loc, "Input should be an integer")),
        }
    }
}

/// Validates booleans: a boolean is returned as it is.
pub struct BoolValidator;

impl BoolValidator {
    /// Whether this kind compiles a schema node with the tag `type_`.
    pub fn is_match(type_: &String, _schema: &Value) -> (r: bool)
        ensures
            r == (type_@ == bool_tag()),
    {
        let tag = "bool".to_owned();
        *type_ == tag
    }

    /// Checks that `input` is a boolean.
    pub fn validate(&self, input: &Value, loc: &Location) -> (r: Result<Value, Vec<ValidationError>>)
        ensures
            outcome_view(r) == validate_spec(SchemaView::Bool, input@, loc@),
    {
        match input {
            Value::Bool(b) => Ok(Value::Bool(*b)),
            _ => Err(single_error(loc, "Input should be a boolean")),
        }
    }
}

/// A compiled validator of one of the kinds, owned by its parent.
pub enum SchemaValidator {
    Model(ModelValidator),
    Str(StrValidator),
    Int(IntValidator),
    Bool(BoolValidator),
}

impl View for SchemaValidator {
    type V = SchemaView;

    open spec fn view(&self) -> SchemaView
        decreases self,
    {
        match self {
            SchemaValidator::Model(m) => SchemaView::Model(m@),
            SchemaValidator::Str(_) => SchemaView::Str,
            SchemaValidator::Int(_) => SchemaView::Int,
            SchemaValidator::Bool(_) => SchemaView::Bool,
        }
    }
}

impl SchemaValidator {
    /// Compiles the schema node `schema`, with the first kind whose tag is
    /// the node's `"type"`.
    pub fn build(schema: &Value) -> (r: Result<SchemaValidator, BuildError>)
        ensures
            build_outcome_view(r) == build_spec(schema@),
        decreases schema, 1int,
    {
        let entries = match schema {
            Value::Dict(entries) => entries,
            _ => return Err(BuildError::NotAMapping),
        };
        let key = "type".to_owned();
        let i = match find_key(entries, &key) {
            Some(i) => i,
            None => return Err(BuildError::MissingType),
        };
        proof {
            lemma_entries_view(entries@);
            assert(entries_view(entries@)[i as int] == (entries@[i as int].0@, entries@[i as int].1@));
        }
        match &entries[i].1 {
            Value::Str(tag) => {
                if ModelValidator::is_match(tag, schema) {
                    match ModelValidator::build(schema) {
                        Ok(m) => Ok(SchemaValidator::Model(m)),
                        Err(e) => Err(e),
                    }
                } else if StrValidator::is_match(tag, schema) {
                    Ok(SchemaValidator::Str(StrValidator))
                } else if IntValidator::is_match(tag, schema) {
                    Ok(SchemaValidator::Int(IntValidator))
                } else if BoolValidator::is_match(tag, schema) {
                    Ok(SchemaValidator::Bool(BoolValidator))
                } else {
                    Err(BuildError::UnknownType(tag.clone()))
                }
            },
            _ => Err(BuildError::TypeNotAString),
        }
    }

    /// Validates `input` as a whole: errors are located from its root.
    pub fn validate_input(&self, input: &Value) -> (r: Result<Value, Vec<ValidationError>>)
        ensures
            outcome_view(r) == validate_spec(self@, input@, Seq::empty()),
    {
        let loc = Location::new();
        self.validate(input, &loc)
    }

    /// Validates `input`, found at `loc`, with the owned validator.
    pub fn validate(&self, input: &Value, loc: &Location) -> (r: Result<Value, Vec<ValidationError>>)
        ensures
            outcome_view(r) == validate_spec(self@, input@, loc@),
        decreases self, 0int,
    {
        match self {
            SchemaValidator::Model(m) => m.validate(input, loc),
            SchemaValidator::Str(v) => v.validate(input, loc),
            SchemaValidator::Int(v) => v.validate(input, loc),
            SchemaValidator::Bool(v) => v.validate(input, loc),
        }
    }
}

/// Validation has no hidden state: two runs of one validator on one input, at
/// one location, give the same outcome.
pub proof fn lemma_validate_repeatable(
    validator: SchemaValidator,
    input: Value,
    loc: Location,
    first: Result<Value, Vec<ValidationError>>,
    second: Result<Value, Vec<ValidationError>>,
)
    requires
        outcome_view(first) == validate_spec(validator@, input@, loc@),
        outcome_view(second) == validate_spec(validator@, input@, loc@),
    ensures
        outcome_view(first) == outcome_view(second),
{
}

} // verus!
