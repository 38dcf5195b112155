//! The model validator: a mapping of named fields, each with its own validator.
use vstd::prelude::*;

use crate::errors::{
    errors_view, join, outcome_view, single_error, ErrorView, LocItem, LocItemView, Location, ValidationError,
};
use crate::schema::{build_spec, kind_error, model_tag, validate_spec, BuildError, BuildErrorView, SchemaValidator, SchemaView};
use crate::value::{entries_view, find_key, key_index, lemma_entries_view, lookup, Value, ValueView};

verus! {

/// The compiled model of one declared field.
pub ghost struct FieldView {
    pub name: Seq<char>,
    pub required: bool,
    pub validator: SchemaView,
}

/// The message of the error for a required field that the input lacks.
pub open spec fn missing_message(name: Seq<char>) -> Seq<char> {
    "Missing field: "@ + name
}

/// The message of an error found inside the named field.
pub open spec fn field_message(name: Seq<char>, message: Seq<char>) -> Seq<char> {
    "Field "@ + name + " error: "@ + message
}

/// The error for the required field `name`, absent from the mapping at `loc`.
pub open spec fn missing_error(loc: Seq<LocItemView>, name: Seq<char>) -> ErrorView {
    ErrorView { location: loc.push(LocItemView::Key(name)), message: missing_message(name) }
}

/// The errors of a field's validator, each attributed to that field.
pub open spec fn field_errors(name: Seq<char>, errors: Seq<ErrorView>) -> Seq<ErrorView> {
    errors.map_values(
        |e: ErrorView| ErrorView { location: e.location, message: field_message(name, e.message) },
    )
}

/// The output entries and the errors after the first `n` declared fields
/// have been checked against the input mapping `entries`.
pub open spec fn model_fold(
    fields: Seq<FieldView>,
    entries: Seq<(Seq<char>, ValueView)>,
    loc: Seq<LocItemView>,
    n: int,
) -> (Seq<(Seq<char>, ValueView)>, Seq<ErrorView>)
    decreases fields, n,
{
    if n <= 0 || n > fields.len() {
        (Seq::empty(), Seq::empty())
    } else {
        let prev = model_fold(fields, entries, loc, n - 1);
        let f = fields[n - 1];
        match lookup(entries, f.name) {
            Some(v) => match validate_spec(f.validator, v, loc.push(LocItemView::Key(f.name))) {
                Ok(o) => (prev.0.push((f.name, o)), prev.1),
                Err(es) => (prev.0, prev.1 + field_errors(f.name, es)),
            },
            None => if f.required {
                (prev.0, prev.1.push(missing_error(loc, f.name)))
            } else {
                prev
            },
        }
    }
}

/// What validating `input` at `loc` against the declared `fields` gives.
pub open spec fn model_validate_spec(
    fields: Seq<FieldView>,
    input: ValueView,
    loc: Seq<LocItemView>,
) -> Result<ValueView, Seq<ErrorView>>
    decreases fields, fields.len() + 1,
{
    match input {
        ValueView::Dict(entries) => {
            let r = model_fold(fields, entries, loc, fields.len() as int);
            if r.1.len() == 0 {
                Ok(ValueView::Dict(r.0))
            } else {
                Err(r.1)
            }
        },
        _ => Err(kind_error(SchemaView::Model(fields), loc)),
    }
}

/// The declared fields compiled from the first `n` entries of a model's
/// `"fields"` mapping, or the first error met.
pub open spec fn build_fields(defs: Seq<(Seq<char>, ValueView)>, n: int) -> Result<Seq<FieldView>, BuildErrorView>
    decreases defs, n,
{
    if n <= 0 || n > defs.len() {
        Ok(Seq::empty())
    } else {
        match build_fields(defs, n - 1) {
            Err(e) => Err(e),
            Ok(fs) => {
                let name = defs[n - 1].0;
                let def = defs[n - 1].1;
                match def {
                    ValueView::Dict(d) => {
                        let required = match lookup(d, "required"@) {
                            None => Ok(false),
                            Some(ValueView::Bool(b)) => Ok(b),
                            Some(_) => Err(BuildErrorView::RequiredNotABool(name)),
                        };
                        match required {
                            Err(e) => Err(e),
                            Ok(req) => match build_spec(def) {
                                Ok(v) => Ok(fs.push(FieldView { name, required: req, validator: v })),
                                Err(e) => Err(e),
                            },
                        }
                    },
                    _ => Err(BuildErrorView::FieldNotAMapping(name)),
                }
            },
        }
    }
}

/// What compiling the model schema node `node` gives.
pub open spec fn model_build_spec(node: ValueView) -> Result<SchemaView, BuildErrorView>
    decreases node, 0int,
{
    match node {
        ValueView::Dict(entries) => match key_index(entries, "fields"@) {
            Some(i) => if 0 <= i < entries.len() {
                match entries[i].1 {
                    ValueView::Dict(defs) => match build_fields(defs, defs.len() as int) {
                        Ok(fs) => Ok(SchemaView::Model(fs)),
                        Err(e) => Err(e),
                    },
                    _ => Err(BuildErrorView::FieldsNotAMapping),
                }
            } else {
                Ok(SchemaView::Model(Seq::empty()))
            },
            None => Ok(SchemaView::Model(Seq::empty())),
        },
        _ => Err(BuildErrorView::NotAMapping),
    }
}

/// Once compiling the field definitions has failed, later definitions do
/// not change the error.
proof fn lemma_build_fields_err(defs: Seq<(Seq<char>, ValueView)>, n: int, m: int)
    requires
        0 <= n <= m <= defs.len(),
        build_fields(defs, n) is Err,
    ensures
        build_fields(defs, m) == build_fields(defs, n),
    decreases m,
{
    if m > n {
        lemma_build_fields_err(defs, n, m - 1);
    }
}

/// Whether an error is the missing-field error of `name` at `loc`.
pub open spec fn is_missing_error(loc: Seq<LocItemView>, name: Seq<char>) -> spec_fn(ErrorView) -> bool {
    |e: ErrorView| e == missing_error(loc, name)
}

/// A model with no declared fields accepts every mapping, and gives an empty
/// mapping.
pub proof fn lemma_empty_model_accepts_mappings(entries: Seq<(Seq<char>, ValueView)>, loc: Seq<LocItemView>)
    ensures
        validate_spec(SchemaView::Model(Seq::empty()), ValueView::Dict(entries), loc) == Ok::<
            ValueView,
            Seq<ErrorView>,
        >(ValueView::Dict(Seq::empty())),
{
    assert(model_fold(Seq::empty(), entries, loc, 0) == (
        Seq::<(Seq<char>, ValueView)>::empty(),
        Seq::<ErrorView>::empty(),
    ));
}

/// No error attributed to a present field is a missing-field error.
proof fn lemma_field_errors_not_missing(
    loc: Seq<LocItemView>,
    name: Seq<char>,
    field: Seq<char>,
    errors: Seq<ErrorView>,
)
    ensures
        field_errors(field, errors).filter(is_missing_error(loc, name)).len() == 0,
{
    let fe = field_errors(field, errors);
    let f = fe.filter(is_missing_error(loc, name));
    fe.filter_lemma(is_missing_error(loc, name));
    if f.len() > 0 {
        reveal_strlit("Field ");
        reveal_strlit("Missing field: ");
        let e = f[0];
        assert(is_missing_error(loc, name)(e));
        assert(f.contains(e)) by {
            assert(f[0] == e);
        }
        fe.lemma_filter_contains_rev(is_missing_error(loc, name), e);
        let k = choose|k: int| 0 <= k < fe.len() && fe[k] == e;
        let head = "Field "@ + field;
        assert(head[0] == 'F');
        assert((head + " error: "@)[0] == 'F');
        assert(e.message == head + " error: "@ + errors[k].message);
        assert(e.message[0] == 'F');
        assert(e.message[0] == 'M');
    }
}

/// After the first `n` fields, the missing-field error of the required,
/// absent field `i` stands once in the errors when `i < n`, else not at all.
proof fn lemma_missing_count(
    fields: Seq<FieldView>,
    entries: Seq<(Seq<char>, ValueView)>,
    loc: Seq<LocItemView>,
    i: int,
    n: int,
)
    requires
        0 <= i < fields.len(),
        0 <= n <= fields.len(),
        fields[i].required,
        lookup(entries, fields[i].name) is None,
        forall|a: int, b: int| 0 <= a < b < fields.len() ==> fields[a].name != fields[b].name,
    ensures
        model_fold(fields, entries, loc, n).1.filter(is_missing_error(loc, fields[i].name)).len() == if i
            < n {
            1int
        } else {
            0int
        },
    decreases n,
{
    let p = is_missing_error(loc, fields[i].name);
    if n > 0 {
        lemma_missing_count(fields, entries, loc, i, n - 1);
        let prev = model_fold(fields, entries, loc, n - 1);
        let cur = model_fold(fields, entries, loc, n);
        let f = fields[n - 1];
        reveal(Seq::filter);
        match lookup(entries, f.name) {
            Some(v) => match validate_spec(f.validator, v, loc.push(LocItemView::Key(f.name))) {
                Ok(o) => {},
                Err(es) => {
                    lemma_field_errors_not_missing(loc, fields[i].name, f.name, es);
                    Seq::filter_distributes_over_add(prev.1, field_errors(f.name, es), p);
                    assert(cur.1.filter(p) =~= prev.1.filter(p));
                },
            },
            None => if f.required {
                assert(cur.1.drop_last() =~= prev.1);
                if n - 1 != i {
                    assert(f.name != fields[i].name);
                    assert(cur.1.last().location.last() == LocItemView::Key(f.name));
                }
            },
        }
    }
}

/// Every required field that the input lacks is reported by exactly one
/// missing-field error, and all of them in the same failed outcome.
pub proof fn lemma_missing_fields_reported(
    fields: Seq<FieldView>,
    entries: Seq<(Seq<char>, ValueView)>,
    loc: Seq<LocItemView>,
    i: int,
)
    requires
        0 <= i < fields.len(),
        fields[i].required,
        lookup(entries, fields[i].name) is None,
        forall|a: int, b: int| 0 <= a < b < fields.len() ==> fields[a].name != fields[b].name,
    ensures
        validate_spec(SchemaView::Model(fields), ValueView::Dict(entries), loc) is Err,
        validate_spec(SchemaView::Model(fields), ValueView::Dict(entries), loc)->Err_0.filter(
            is_missing_error(loc, fields[i].name),
        ).len() == 1,
{
    let errs = model_fold(fields, entries, loc, fields.len() as int).1;
    lemma_missing_count(fields, entries, loc, i, fields.len() as int);
    errs.lemma_filter_len(is_missing_error(loc, fields[i].name));
}

/// Whether `name` is the name of a declared field that the input holds.
pub open spec fn is_present_field(
    fields: Seq<FieldView>,
    entries: Seq<(Seq<char>, ValueView)>,
    name: Seq<char>,
) -> bool {
    exists|i: int| 0 <= i < fields.len() && fields[i].name == name && lookup(entries, name) is Some
}

/// Every error that validating with `s` at `loc` reports lies at or below `loc`.
pub proof fn lemma_error_locations(s: SchemaView, input: ValueView, loc: Seq<LocItemView>)
    ensures
        validate_spec(s, input, loc) is Err ==> forall|k: int|
            0 <= k < validate_spec(s, input, loc)->Err_0.len() ==> loc.is_prefix_of(
                #[trigger] validate_spec(s, input, loc)->Err_0[k].location,
            ),
    decreases s, 0int,
{
    match s {
        SchemaView::Model(fields) => match input {
            ValueView::Dict(entries) => {
                lemma_fold_locations(fields, entries, loc, fields.len() as int);
                let errs = model_fold(fields, entries, loc, fields.len() as int).1;
                if validate_spec(s, input, loc) is Err {
                    assert(validate_spec(s, input, loc)->Err_0 == errs);
                    assert forall|k: int| 0 <= k < errs.len() implies loc.is_prefix_of(
                        #[trigger] errs[k].location,
                    ) by {}
                }
            },
            _ => {
                assert(loc.is_prefix_of(loc));
            },
        },
        _ => {
            assert(loc.is_prefix_of(loc));
        },
    }
}

/// Every error reported for the first `n` fields lies below `loc`.
proof fn lemma_fold_locations(
    fields: Seq<FieldView>,
    entries: Seq<(Seq<char>, ValueView)>,
    loc: Seq<LocItemView>,
    n: int,
)
    ensures
        forall|k: int|
            0 <= k < model_fold(fields, entries, loc, n).1.len() ==> loc.is_prefix_of(
                #[trigger] model_fold(fields, entries, loc, n).1[k].location,
            ),
    decreases fields, n,
{
    if 0 < n <= fields.len() {
        lemma_fold_locations(fields, entries, loc, n - 1);
        let prev = model_fold(fields, entries, loc, n - 1);
        let cur = model_fold(fields, entries, loc, n);
        let f = fields[n - 1];
        let floc = loc.push(LocItemView::Key(f.name));
        match lookup(entries, f.name) {
            Some(v) => {
                lemma_error_locations(f.validator, v, floc);
                match validate_spec(f.validator, v, floc) {
                    Ok(o) => {},
                    Err(es) => {
                        assert forall|k: int| 0 <= k < cur.1.len() implies loc.is_prefix_of(
                            #[trigger] cur.1[k].location,
                        ) by {
                            if k >= prev.1.len() {
                                let e = es[k - prev.1.len()];
                                assert(floc.is_prefix_of(e.location));
                                assert(cur.1[k].location == e.location);
                                assert(e.location.subrange(0, loc.len() as int) =~= floc.subrange(
                                    0,
                                    loc.len() as int,
                                ));
                            } else {
                                assert(cur.1[k] == prev.1[k]);
                            }
                        }
                    },
                }
            },
            None => if f.required {
                assert forall|k: int| 0 <= k < cur.1.len() implies loc.is_prefix_of(
                    #[trigger] cur.1[k].location,
                ) by {
                    if k == prev.1.len() {
                        assert(floc.subrange(0, loc.len() as int) =~= loc);
                    } else {
                        assert(cur.1[k] == prev.1[k]);
                    }
                }
            },
        }
    }
}

/// What the first `n` fields contribute: each output entry belongs to a
/// declared field that the input holds; each such field that its validator
/// accepts has its value in the output; each error of a field that its
/// validator rejects is reported, attributed to that field.
proof fn lemma_fold_contents(
    fields: Seq<FieldView>,
    entries: Seq<(Seq<char>, ValueView)>,
    loc: Seq<LocItemView>,
    n: int,
)
    requires
        0 <= n <= fields.len(),
    ensures
        forall|j: int|
            0 <= j < model_fold(fields, entries, loc, n).0.len() ==> exists|i: int|
                0 <= i < n && #[trigger] model_fold(fields, entries, loc, n).0[j].0 == fields[i].name
                    && lookup(entries, fields[i].name) is Some,
        forall|i: int|
            0 <= i < n && #[trigger] lookup(entries, fields[i].name) is Some && validate_spec(
                fields[i].validator,
                lookup(entries, fields[i].name)->Some_0,
                loc.push(LocItemView::Key(fields[i].name)),
            ) is Ok ==> model_fold(fields, entries, loc, n).0.contains(
                (
                    fields[i].name,
                    validate_spec(
                        fields[i].validator,
                        lookup(entries, fields[i].name)->Some_0,
                        loc.push(LocItemView::Key(fields[i].name)),
                    )->Ok_0,
                ),
            ),
        forall|i: int, k: int|
            0 <= i < n && #[trigger] lookup(entries, fields[i].name) is Some && validate_spec(
                fields[i].validator,
                lookup(entries, fields[i].name)->Some_0,
                loc.push(LocItemView::Key(fields[i].name)),
            ) is Err && 0 <= k < validate_spec(
                fields[i].validator,
                lookup(entries, fields[i].name)->Some_0,
                loc.push(LocItemView::Key(fields[i].name)),
            )->Err_0.len() ==> model_fold(fields, entries, loc, n).1.contains(
                #[trigger] field_errors(
                    fields[i].name,
                    validate_spec(
                        fields[i].validator,
                        lookup(entries, fields[i].name)->Some_0,
                        loc.push(LocItemView::Key(fields[i].name)),
                    )->Err_0,
                )[k],
            ),
    decreases n,
{
    if n > 0 {
        lemma_fold_contents(fields, entries, loc, n - 1);
        let prev = model_fold(fields, entries, loc, n - 1);
        let cur = model_fold(fields, entries, loc, n);
        assert(prev.0.is_prefix_of(cur.0));
        assert(prev.1.is_prefix_of(cur.1));
        assert forall|x: (Seq<char>, ValueView)| prev.0.contains(x) implies cur.0.contains(x) by {
            let j = choose|j: int| 0 <= j < prev.0.len() && prev.0[j] == x;
            assert(cur.0[j] == x);
        }
        assert forall|x: ErrorView| prev.1.contains(x) implies cur.1.contains(x) by {
            let j = choose|j: int| 0 <= j < prev.1.len() && prev.1[j] == x;
            assert(cur.1[j] == x);
        }
        let f = fields[n - 1];
        let floc = loc.push(LocItemView::Key(f.name));
        assert forall|j: int| 0 <= j < cur.0.len() implies exists|i: int|
            0 <= i < n && #[trigger] cur.0[j].0 == fields[i].name && lookup(entries, fields[i].name) is Some by {
            if j < prev.0.len() {
                assert(cur.0[j] == prev.0[j]);
                let i = choose|i: int| 0 <= i < n - 1 && #[trigger] prev.0[j].0 == fields[i].name
                    && lookup(entries, fields[i].name) is Some;
                assert(cur.0[j].0 == fields[i].name);
            } else {
                assert(cur.0[j].0 == fields[n - 1].name);
            }
        }
        match lookup(entries, f.name) {
            Some(v) => match validate_spec(f.validator, v, floc) {
                Ok(o) => {
                    assert(cur.0[prev.0.len() as int] == (f.name, o));
                },
                Err(es) => {
                    let fe = field_errors(f.name, es);
                    assert forall|k: int| 0 <= k < es.len() implies cur.1.contains(
                        #[trigger] fe[k],
                    ) by {
                        assert(cur.1[prev.1.len() + k] == fe[k]);
                    }
                },
            },
            None => {},
        }
    }
}

/// When validation of a model succeeds, the output holds exactly the
/// declared fields that the input holds, each with the value its own
/// validator gave: which fields appear does not depend on their order.
pub proof fn lemma_present_fields_output(
    fields: Seq<FieldView>,
    entries: Seq<(Seq<char>, ValueView)>,
    loc: Seq<LocItemView>,
)
    requires
        validate_spec(SchemaView::Model(fields), ValueView::Dict(entries), loc) is Ok,
    ensures
        validate_spec(SchemaView::Model(fields), ValueView::Dict(entries), loc)->Ok_0 is Dict,
        forall|i: int|
            0 <= i < fields.len() && #[trigger] lookup(entries, fields[i].name) is Some ==> {
                let r = validate_spec(
                    fields[i].validator,
                    lookup(entries, fields[i].name)->Some_0,
                    loc.push(LocItemView::Key(fields[i].name)),
                );
                &&& r is Ok
                &&& validate_spec(
                    SchemaView::Model(fields),
                    ValueView::Dict(entries),
                    loc,
                )->Ok_0->Dict_0.contains((fields[i].name, r->Ok_0))
            },
        ({
            let out = validate_spec(SchemaView::Model(fields), ValueView::Dict(entries), loc)->Ok_0->Dict_0;
            forall|j: int| 0 <= j < out.len() ==> is_present_field(fields, entries, #[trigger] out[j].0)
        }),
{
    let n = fields.len() as int;
    lemma_fold_contents(fields, entries, loc, n);
    let errs = model_fold(fields, entries, loc, n).1;
    let out = model_fold(fields, entries, loc, n).0;
    assert(validate_spec(SchemaView::Model(fields), ValueView::Dict(entries), loc)->Ok_0->Dict_0 == out);
    let result = validate_spec(SchemaView::Model(fields), ValueView::Dict(entries), loc)->Ok_0->Dict_0;
    assert forall|j: int| 0 <= j < result.len() implies is_present_field(fields, entries, #[trigger] result[j].0) by {
        assert(result[j] == model_fold(fields, entries, loc, n).0[j]);
        let i = choose|i: int| 0 <= i < n && #[trigger] model_fold(fields, entries, loc, n).0[j].0 == fields[i].name
            && lookup(entries, fields[i].name) is Some;
        assert(result[j].0 == fields[i].name);
    }
    assert forall|i: int| 0 <= i < fields.len() && #[trigger] lookup(entries, fields[i].name) is Some
        implies validate_spec(
        fields[i].validator,
        lookup(entries, fields[i].name)->Some_0,
        loc.push(LocItemView::Key(fields[i].name)),
    ) is Ok by {
        let r = validate_spec(
            fields[i].validator,
            lookup(entries, fields[i].name)->Some_0,
            loc.push(LocItemView::Key(fields[i].name)),
        );
        if r is Err {
            let es = r->Err_0;
            lemma_error_locations(
                fields[i].validator,
                lookup(entries, fields[i].name)->Some_0,
                loc.push(LocItemView::Key(fields[i].name)),
            );
            lemma_err_nonempty(fields[i].validator, lookup(entries, fields[i].name)->Some_0, loc.push(LocItemView::Key(fields[i].name)));
            assert(errs.contains(field_errors(fields[i].name, es)[0]));
        }
    }
}

/// A field whose own validator rejects its value makes the whole model
/// validation fail; each of the field's errors is reported, lies below the
/// field's location, and its message names the field.
pub proof fn lemma_field_failure_reported(
    fields: Seq<FieldView>,
    entries: Seq<(Seq<char>, ValueView)>,
    loc: Seq<LocItemView>,
    i: int,
)
    requires
        0 <= i < fields.len(),
        lookup(entries, fields[i].name) is Some,
        validate_spec(
            fields[i].validator,
            lookup(entries, fields[i].name)->Some_0,
            loc.push(LocItemView::Key(fields[i].name)),
        ) is Err,
    ensures
        ({
            let es = validate_spec(
                fields[i].validator,
                lookup(entries, fields[i].name)->Some_0,
                loc.push(LocItemView::Key(fields[i].name)),
            )->Err_0;
            let r = validate_spec(SchemaView::Model(fields), ValueView::Dict(entries), loc);
            &&& r is Err
            &&& es.len() > 0
            &&& forall|k: int|
                0 <= k < es.len() ==> {
                    &&& loc.push(LocItemView::Key(fields[i].name)).is_prefix_of(#[trigger] es[k].location)
                    &&& r->Err_0.contains(
                        ErrorView {
                            location: es[k].location,
                            message: field_message(fields[i].name, es[k].message),
                        },
                    )
                }
        }),
{
    let n = fields.len() as int;
    let floc = loc.push(LocItemView::Key(fields[i].name));
    let v = lookup(entries, fields[i].name)->Some_0;
    let es = validate_spec(fields[i].validator, v, floc)->Err_0;
    lemma_fold_contents(fields, entries, loc, n);
    lemma_error_locations(fields[i].validator, v, floc);
    lemma_err_nonempty(fields[i].validator, v, floc);
    let fe = field_errors(fields[i].name, es);
    assert forall|k: int| 0 <= k < es.len() implies model_fold(fields, entries, loc, n).1.contains(
        ErrorView { location: es[k].location, message: field_message(fields[i].name, es[k].message) },
    ) by {
        assert(fe[k] == ErrorView {
            location: es[k].location,
            message: field_message(fields[i].name, es[k].message),
        });
    }
    assert(model_fold(fields, entries, loc, n).1.contains(fe[0]));
}

/// A validation that fails reports at least one error.
proof fn lemma_err_nonempty(s: SchemaView, input: ValueView, loc: Seq<LocItemView>)
    ensures
        validate_spec(s, input, loc) is Err ==> validate_spec(s, input, loc)->Err_0.len() > 0,
{
}

/// One declared field: its name, whether the input must hold it, and its
/// validator.
struct ModelField {
    name: String,
    required: bool,
    validator: Box<SchemaValidator>,
}

impl View for ModelField {
    type V = FieldView;

    closed spec fn view(&self) -> FieldView
        decreases self,
    {
        FieldView { name: self.name@, required: self.required, validator: (*self.validator)@ }
    }
}

/// The models of the declared fields, in order.
closed spec fn fields_view(fields: Seq<ModelField>) -> Seq<FieldView>
    decreases fields,
{
    if fields.len() == 0 {
        Seq::empty()
    } else {
        fields_view(fields.subrange(0, fields.len() - 1)).push(fields[fields.len() - 1]@)
    }
}

/// The models of the declared fields hold the model of each field.
proof fn lemma_fields_view(fields: Seq<ModelField>)
    ensures
        fields_view(fields).len() == fields.len(),
        forall|i: int| 0 <= i < fields.len() ==> #[trigger] fields_view(fields)[i] == fields[i]@,
    decreases fields.len(),
{
    if fields.len() > 0 {
        let prefix = fields.subrange(0, fields.len() - 1);
        lemma_fields_view(prefix);
        assert(fields_view(fields) == fields_view(prefix).push(fields[fields.len() - 1]@));
        assert forall|i: int| 0 <= i < fields.len() implies #[trigger] fields_view(fields)[i]
            == fields[i]@ by {
            if i < fields.len() - 1 {
                assert(prefix[i] == fields[i]);
            }
        }
    }
}

/// Validates a mapping against declared fields, in declaration order.
pub struct ModelValidator {
    fields: Vec<ModelField>,
}

impl View for ModelValidator {
    type V = Seq<FieldView>;

    closed spec fn view(&self) -> Seq<FieldView>
        decreases self,
    {
        fields_view(self.fields@)
    }
}

/// The error of a field's validator, attributed to the field `name`.
fn field_error(name: &String, e: &ValidationError) -> (r: ValidationError)
    ensures
        r@ == (ErrorView { location: e@.location, message: field_message(name@, e@.message) }),
{
    let head = join("Field ", name.as_str());
    let head = join(head.as_str(), " error: ");
    ValidationError { location: e.location.copied(), message: join(head.as_str(), e.message.as_str()) }
}

impl ModelValidator {
    /// Whether this kind compiles a schema node with the tag `type_`.
    pub fn is_match(type_: &String, _schema: &Value) -> (r: bool)
        ensures
            r == (type_@ == model_tag()),
    {
        let tag = "model".to_owned();
        *type_ == tag
    }

    /// Compiles a model schema node: each entry of its `"fields"` mapping
    /// declares a field. A node without `"fields"` declares none.
    pub fn build(schema: &Value) -> (r: Result<ModelValidator, BuildError>)
        ensures
            match r {
                Ok(m) => model_build_spec(schema@) == Ok::<SchemaView, BuildErrorView>(SchemaView::Model(m@)),
                Err(e) => model_build_spec(schema@) == Err::<SchemaView, BuildErrorView>(e@),
            },
        decreases schema, 0int,
    {
        let entries = match schema {
            Value::Dict(entries) => entries,
            _ => return Err(BuildError::NotAMapping),
        };
        proof {
            lemma_entries_view(entries@);
            lemma_fields_view(Seq::<ModelField>::empty());
        }
        let key = "fields".to_owned();
        let defs = match find_key(entries, &key) {
            None => {
                let m = ModelValidator { fields: Vec::new() };
                assert(m@ =~= Seq::<FieldView>::empty());
                return Ok(m);
            },
            Some(k) => match &entries[k].1 {
                Value::Dict(defs) => {
                    assert(entries_view(entries@)[k as int] == (entries@[k as int].0@, entries@[k as int].1@));
                    defs
                },
                _ => {
                    assert(entries_view(entries@)[k as int] == (entries@[k as int].0@, entries@[k as int].1@));
                    return Err(BuildError::FieldsNotAMapping);
                },
            },
        };
        let ghost dv = entries_view(defs@);
        proof {
            lemma_entries_view(defs@);
        }
        let mut fields: Vec<ModelField> = Vec::new();
        let mut i: usize = 0;
        assert(decreases_to!(schema => defs));
        while i < defs.len()
            invariant
                decreases_to!(schema => defs),
                fields@.len() == i,
                i <= defs@.len(),
                dv == entries_view(defs@),
                dv.len() == defs@.len(),
                forall|j: int| 0 <= j < defs@.len() ==> #[trigger] dv[j] == (defs@[j].0@, defs@[j].1@),
                build_fields(dv, i as int) == Ok::<Seq<FieldView>, BuildErrorView>(fields_view(fields@)),
                match build_fields(dv, dv.len() as int) {
                    Ok(fs) => model_build_spec(schema@) == Ok::<SchemaView, BuildErrorView>(SchemaView::Model(fs)),
                    Err(e) => model_build_spec(schema@) == Err::<SchemaView, BuildErrorView>(e),
                },
            decreases defs@.len() - i,
        {
            let name = &defs[i].0;
            let def = &defs[i].1;
            assert(dv[i as int] == (name@, def@));
            let d = match def {
                Value::Dict(d) => d,
                _ => {
                    proof {
                        lemma_build_fields_err(dv, i + 1, dv.len() as int);
                    }
                    return Err(BuildError::FieldNotAMapping(name.clone()));
                },
            };
            proof {
                lemma_entries_view(d@);
            }
            let key = "required".to_owned();
            let required = match find_key(d, &key) {
                None => false,
                Some(k) => match &d[k].1 {
                    Value::Bool(b) => {
                        assert(entries_view(d@)[k as int] == (d@[k as int].0@, d@[k as int].1@));
                        *b
                    },
                    _ => {
                        proof {
                            assert(entries_view(d@)[k as int] == (d@[k as int].0@, d@[k as int].1@));
                            lemma_build_fields_err(dv, i + 1, dv.len() as int);
                        }
                        return Err(BuildError::RequiredNotABool(name.clone()));
                    },
                },
            };
            let validator = match SchemaValidator::build(def) {
                Ok(v) => v,
                Err(e) => {
                    proof {
                        lemma_build_fields_err(dv, i + 1, dv.len() as int);
                    }
                    return Err(e);
                },
            };
            let ghost prev = fields@;
            let ghost fv = FieldView { name: name@, required, validator: validator@ };
            assert(build_fields(dv, i + 1) == Ok::<Seq<FieldView>, BuildErrorView>(fields_view(prev).push(fv)));
            fields.push(ModelField { name: name.clone(), required, validator: Box::new(validator) });
            assert(fields@.subrange(0, fields@.len() - 1) =~= prev);
            assert(fields@[i as int]@ == fv);
            assert(fields_view(fields@) == fields_view(prev).push(fv));
            i = i + 1;
        }
        let m = ModelValidator { fields };
        Ok(m)
    }

    /// Validates `input`, found at `loc`: it must be a mapping. Every declared
    /// field is checked, and every error found is reported.
    pub fn validate(&self, input: &Value, loc: &Location) -> (r: Result<Value, Vec<ValidationError>>)
        ensures
            outcome_view(r) == model_validate_spec(self@, input@, loc@),
        decreases self, 0int,
    {
        let entries = match input {
            Value::Dict(entries) => entries,
            _ => return Err(single_error(loc, "Input should be a mapping")),
        };
        let ghost ev = entries_view(entries@);
        let ghost fv = self@;
        proof {
            lemma_entries_view(entries@);
            lemma_fields_view(self.fields@);
            lemma_entries_view(Seq::<(String, Value)>::empty());
        }
        let mut output: Vec<(String, Value)> = Vec::new();
        let mut errors: Vec<ValidationError> = Vec::new();
        assert(errors_view(errors@) =~= Seq::<ErrorView>::empty());
        let mut i: usize = 0;
        while i < self.fields.len()
            invariant
                i <= self.fields@.len(),
                ev == entries_view(entries@),
                ev.len() == entries@.len(),
                forall|j: int| 0 <= j < entries@.len() ==> #[trigger] ev[j] == (entries@[j].0@, entries@[j].1@),
                fv == self@,
                fv == fields_view(self.fields@),
                fv.len() == self.fields@.len(),
                forall|j: int| 0 <= j < self.fields@.len() ==> #[trigger] fv[j] == self.fields@[j]@,
                (entries_view(output@), errors_view(errors@)) == model_fold(fv, ev, loc@, i as int),
            decreases self.fields@.len() - i,
        {
            let field = &self.fields[i];
            assert(fv[i as int] == field@);
            let ghost prev_out = output@;
            let ghost prev_errors = errors@;
            match find_key(entries, &field.name) {
                Some(j) => {
                    assert(ev[j as int] == (entries@[j as int].0@, entries@[j as int].1@));
                    let field_loc = loc.push(LocItem::Key(field.name.clone()));
                    match field.validator.validate(&entries[j].1, &field_loc) {
                        Ok(v) => {
                            output.push((field.name.clone(), v));
                            assert(output@.subrange(0, output@.len() - 1) =~= prev_out);
                        },
                        Err(errs) => {
                            let ghost nested = errors_view(errs@);
                            let mut k: usize = 0;
                            while k < errs.len()
                                invariant
                                    k <= errs@.len(),
                                    nested == errors_view(errs@),
                                    errors_view(errors@) =~= errors_view(prev_errors) + field_errors(
                                        field.name@,
                                        nested.subrange(0, k as int),
                                    ),
                                decreases errs@.len() - k,
                            {
                                let ghost before = errors@;
                                errors.push(field_error(&field.name, &errs[k]));
                                assert(errors_view(errors@) =~= errors_view(before).push(errors@[errors@.len() - 1]@));
                                assert(field_errors(field.name@, nested.subrange(0, k + 1)) =~= field_errors(
                                    field.name@,
                                    nested.subrange(0, k as int),
                                ).push(field_errors(field.name@, nested)[k as int]));
                                k = k + 1;
                            }
                            assert(nested.subrange(0, errs@.len() as int) =~= nested);
                        },
                    }
                },
                None => {
                    if field.required {
                        let location = loc.push(LocItem::Key(field.name.clone()));
                        let message = join("Missing field: ", field.name.as_str());
                        errors.push(ValidationError { location, message });
                        assert(errors_view(errors@) =~= errors_view(prev_errors).push(errors@[errors@.len() - 1]@));
                    }
                },
            }
            i = i + 1;
        }
        if errors.len() == 0 {
            Ok(Value::Dict(output))
        } else {
            Err(errors)
        }
    }
}

} // verus!
