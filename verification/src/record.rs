//! The plan of a record: the plans of its fields, in the order of their declaration.

use vstd::prelude::*;
use crate::directive::{
    duplicated, kind_of, lemma_value_of_some, misgiven, resolve, resolved,
    unsupported, DirectiveKind, DirectiveSetModel,
};
use crate::error::{rejection, ConfigError, Rejection, RejectionModel};
use crate::field::planned;
use crate::infer::{dangling, inferred};
use crate::model::{option_model, result_model};
use crate::plan::{
    step_models, Construction, NamedStep, NamedStepModel, RecordPlan, RecordPlanModel, Step,
    StepModel,
};
use crate::registry::Registry;
use crate::search::{first_true, lemma_first_true, lemma_first_true_at, lemma_first_true_none};
use crate::schema::{
    field_models, AttributeModel, Expression, ExpressionModel, Field, FieldModel, Record,
    RecordModel,
};
use crate::text::{holds_text, same_text, texts};

verus! {

/// The names of the fields, in the order of their declaration.
pub open spec fn names_of(fields: Seq<FieldModel>) -> Seq<Seq<char>> {
    fields.map_values(|f: FieldModel| f.name)
}

/// Whether `name` is the name of a field that is not bound yet when field `i` is decoded:
/// field `i` or a later one has the name, and no earlier one has it.
pub open spec fn unbound(fields: Seq<FieldModel>, i: int, name: Seq<char>) -> bool {
    names_of(fields).skip(i).contains(name) && !names_of(fields).take(i).contains(name)
}

/// Whether the expression mentions a field that is not bound yet when field `i` is decoded.
pub open spec fn mentions_unbound(fields: Seq<FieldModel>, i: int, e: ExpressionModel) -> bool {
    exists|k: int| 0 <= k < e.names.len() && unbound(fields, i, #[trigger] e.names[k])
}

/// Whether the expression, if there is one, mentions a field that is not bound yet when
/// field `i` is decoded.
pub open spec fn reaches_ahead(
    fields: Seq<FieldModel>,
    i: int,
    e: Option<ExpressionModel>,
) -> bool {
    match e {
        Some(e) => mentions_unbound(fields, i, e),
        None => false,
    }
}

/// What field `i` comes to: its step, or why it is refused. Its directives are resolved
/// first; then its guard and its count may mention no field that is not bound yet; then its
/// step is built.
pub open spec fn field_outcome(fields: Seq<FieldModel>, i: int, known: Set<Seq<char>>) -> Result<
    StepModel,
    RejectionModel,
> {
    let field = fields[i];
    match resolved(field.attrs) {
        Err(e) => Err(rejection(e, field.name)),
        Ok(set) => if reaches_ahead(fields, i, set.cond) || reaches_ahead(fields, i, set.count) {
            Err(rejection(ConfigError::ForwardReference, field.name))
        } else {
            match planned(field.ty, set, known) {
                Err(e) => Err(rejection(e, field.name)),
                Ok(step) => Ok(step),
            }
        },
    }
}

/// For each field, whether it is refused.
pub open spec fn refused(fields: Seq<FieldModel>, known: Set<Seq<char>>) -> Seq<bool> {
    Seq::new(fields.len(), |i: int| field_outcome(fields, i, known) is Err)
}

/// The step of field `i`, under the field's name.
pub open spec fn named_step(
    fields: Seq<FieldModel>,
    i: int,
    known: Set<Seq<char>>,
) -> NamedStepModel {
    NamedStepModel { name: fields[i].name, step: field_outcome(fields, i, known)->Ok_0 }
}

/// How a record's value is put together.
pub open spec fn construction_of(positional: bool) -> Construction {
    if positional {
        Construction::Positional
    } else {
        Construction::Named
    }
}

/// The plan of a record, where `known` are the names of the registered types: the refusal
/// of the first field that is refused; else one step for each field, in the order of their
/// declaration.
pub open spec fn record_plan(record: RecordModel, known: Set<Seq<char>>) -> Result<
    RecordPlanModel,
    RejectionModel,
> {
    match first_true(refused(record.fields, known)) {
        Some(i) => Err(field_outcome(record.fields, i, known)->Err_0),
        None => Ok(
            RecordPlanModel {
                name: record.name,
                steps: Seq::new(
                    record.fields.len(),
                    |i: int| named_step(record.fields, i, known),
                ),
                construction: construction_of(record.positional),
            },
        ),
    }
}

/// Whether `name` is the name of field `i` or of a later field.
fn declared_from(fields: &Vec<Field>, i: usize, name: &str) -> (r: bool)
    requires
        i <= fields.len(),
    ensures
        r == names_of(field_models(fields@)).skip(i as int).contains(name@),
{
    let ghost rest = names_of(field_models(fields@)).skip(i as int);
    let mut j: usize = i;
    while j < fields.len()
        invariant
            i <= j <= fields.len(),
            rest == names_of(field_models(fields@)).skip(i as int),
            forall|x: int| 0 <= x < j - i ==> rest[x] != name@,
        decreases fields.len() - j,
    {
        if same_text(fields[j].name.as_str(), name) {
            assert(rest[j - i] == name@);
            return true;
        }
        j = j + 1;
    }
    false
}

/// Whether the expression mentions a field that is not bound yet when field `i` is decoded;
/// `bound` holds the names of the fields before it.
fn looks_ahead(fields: &Vec<Field>, i: usize, bound: &Vec<String>, e: &Expression) -> (r: bool)
    requires
        i <= fields.len(),
        texts(bound@) == names_of(field_models(fields@)).take(i as int),
    ensures
        r == mentions_unbound(field_models(fields@), i as int, e@),
{
    let ghost model = field_models(fields@);
    let mut k: usize = 0;
    while k < e.names.len()
        invariant
            k <= e.names.len(),
            e@.names.len() == e.names.len(),
            i <= fields.len(),
            model == field_models(fields@),
            texts(bound@) == names_of(model).take(i as int),
            forall|x: int| 0 <= x < k ==> !unbound(model, i as int, #[trigger] e@.names[x]),
        decreases e.names.len() - k,
    {
        let name = e.names[k].as_str();
        if declared_from(fields, i, name) && !holds_text(bound, name) {
            assert(unbound(model, i as int, e@.names[k as int]));
            return true;
        }
        k = k + 1;
    }
    false
}

/// Whether the expression, if there is one, mentions a field that is not bound yet when
/// field `i` is decoded; `bound` holds the names of the fields before it.
fn may_look_ahead(fields: &Vec<Field>, i: usize, bound: &Vec<String>, e: &Option<Expression>) -> (r:
    bool)
    requires
        i <= fields.len(),
        texts(bound@) == names_of(field_models(fields@)).take(i as int),
    ensures
        r == reaches_ahead(field_models(fields@), i as int, option_model(*e)),
{
    match e {
        None => false,
        Some(e) => looks_ahead(fields, i, bound, e),
    }
}

/// What field `i` comes to; `bound` holds the names of the fields before it.
fn plan_field(
    fields: &Vec<Field>,
    i: usize,
    bound: &Vec<String>,
    registry: &Registry,
) -> (r: Result<Step, Rejection>)
    requires
        i < fields.len(),
        texts(bound@) == names_of(field_models(fields@)).take(i as int),
    ensures
        result_model(r) == field_outcome(field_models(fields@), i as int, registry@.dom()),
{
    let field = &fields[i];
    match resolve(&field.attrs) {
        Err(e) => Err(Rejection::new(e, &field.name)),
        Ok(set) => {
            if may_look_ahead(fields, i, bound, &set.cond) || may_look_ahead(
                fields,
                i,
                bound,
                &set.count,
            ) {
                Err(Rejection::new(ConfigError::ForwardReference, &field.name))
            } else {
                match field.build(&set, registry) {
                    Err(e) => Err(Rejection::new(e, &field.name)),
                    Ok(step) => Ok(step),
                }
            }
        },
    }
}

impl Record {
    /// Builds the plan of the record: one step for each field, in the order of their
    /// declaration, and the way the value is put together.
    ///
    /// A guard or a count may mention the fields declared earlier, and no field of the
    /// record that is declared later or is the field itself. The record is refused for the
    /// first of its fields that is refused, with that field's name.
    pub fn build(&self, registry: &Registry) -> (r: Result<RecordPlan, Rejection>)
        ensures
            result_model(r) == record_plan(self@, registry@.dom()),
    {
        let ghost model = field_models(self.fields@);
        let ghost known = registry@.dom();
        let mut steps: Vec<NamedStep> = Vec::new();
        let mut bound: Vec<String> = Vec::new();
        let mut i: usize = 0;
        assert(texts(bound@) =~= names_of(model).take(0));
        while i < self.fields.len()
            invariant
                i <= self.fields.len(),
                steps.len() == i,
                bound.len() == i,
                model == field_models(self.fields@),
                known == registry@.dom(),
                texts(bound@) == names_of(model).take(i as int),
                forall|j: int| 0 <= j < i ==> !refused(model, known)[j],
                forall|j: int|
                    0 <= j < i ==> (#[trigger] steps@[j])@ == named_step(model, j, known),
            decreases self.fields.len() - i,
        {
            let ghost earlier = bound@;
            match plan_field(&self.fields, i, &bound, registry) {
                Err(e) => {
                    proof {
                        lemma_first_true_at(refused(model, known), i as int);
                    }
                    return Err(e);
                },
                Ok(step) => {
                    let name = self.fields[i].name.clone();
                    steps.push(NamedStep { name, step });
                    bound.push(self.fields[i].name.clone());
                    assert(texts(bound@) =~= names_of(model).take(i + 1)) by {
                        assert(bound@ == earlier.push(bound@[i as int]));
                        assert(bound@[i as int]@ == model[i as int].name);
                        assert forall|j: int| 0 <= j < i + 1 implies texts(bound@)[j] == names_of(
                            model,
                        ).take(i + 1)[j] by {
                            if j < i {
                                assert(texts(earlier)[j] == names_of(model).take(i as int)[j]);
                            }
                        }
                    }
                },
            }
            i = i + 1;
        }
        proof {
            lemma_first_true_none(refused(model, known));
            assert(step_models(steps@) =~= Seq::new(
                model.len(),
                |i: int| named_step(model, i, known),
            ));
        }
        Ok(
            RecordPlan {
                name: self.name.clone(),
                steps,
                construction: if self.positional {
                    Construction::Positional
                } else {
                    Construction::Named
                },
            },
        )
    }
}

/// Where a field is refused, the record is refused.
pub proof fn lemma_refused_field(record: RecordModel, known: Set<Seq<char>>, i: int)
    requires
        0 <= i < record.fields.len(),
        field_outcome(record.fields, i, known) is Err,
    ensures
        record_plan(record, known) is Err,
{
    lemma_first_true(refused(record.fields, known));
    assert(refused(record.fields, known)[i]);
}

/// The plan of a record has one step for each field, under the field's name, in the order
/// in which the fields are declared; and it builds the value as the record is shaped.
pub proof fn lemma_declaration_order(record: RecordModel, known: Set<Seq<char>>)
    requires
        record_plan(record, known) is Ok,
    ensures
        record_plan(record, known)->Ok_0.name == record.name,
        record_plan(record, known)->Ok_0.construction == construction_of(record.positional),
        record_plan(record, known)->Ok_0.steps.len() == record.fields.len(),
        forall|i: int|
            0 <= i < record.fields.len() ==> (#[trigger] record_plan(
                record,
                known,
            )->Ok_0.steps[i]).name == record.fields[i].name && field_outcome(
                record.fields,
                i,
                known,
            ) == Ok::<StepModel, RejectionModel>(record_plan(record, known)->Ok_0.steps[i].step),
{
    lemma_first_true(refused(record.fields, known));
    assert forall|i: int| 0 <= i < record.fields.len() implies field_outcome(
        record.fields,
        i,
        known,
    ) is Ok by {
        assert(!refused(record.fields, known)[i]);
    }
}

/// Whether none of the attributes is a directive.
pub open spec fn plain(attrs: Seq<AttributeModel>) -> bool {
    forall|i: int| 0 <= i < attrs.len() ==> #[trigger] kind_of(attrs[i].name) is None
}

/// The directives of a field, variant or union that has none.
pub open spec fn no_directives() -> DirectiveSetModel {
    DirectiveSetModel {
        decoder: None,
        verify: None,
        cond: None,
        count: None,
        selector: None,
        representation: None,
    }
}

/// Attributes none of which is a directive resolve to no directives.
pub proof fn lemma_plain_resolves(attrs: Seq<AttributeModel>)
    requires
        plain(attrs),
    ensures
        resolved(attrs) == Ok::<DirectiveSetModel, ConfigError>(no_directives()),
{
    lemma_value_of_some(attrs, DirectiveKind::Decoder);
    lemma_value_of_some(attrs, DirectiveKind::Verify);
    lemma_value_of_some(attrs, DirectiveKind::Cond);
    lemma_value_of_some(attrs, DirectiveKind::Count);
    lemma_value_of_some(attrs, DirectiveKind::Selector);
    lemma_value_of_some(attrs, DirectiveKind::Representation);
    assert(!duplicated(attrs));
    assert(!unsupported(attrs)) by {
        assert forall|i: int| 0 <= i < attrs.len() implies !misgiven(#[trigger] attrs[i]) by {
            assert(kind_of(attrs[i].name) is None);
        }
    }
}

/// A record without directives, whose fields come down to integers and to registered
/// types, is planned: each field by the step that its type infers, in the order of
/// declaration.
pub proof fn lemma_plain_record(record: RecordModel, known: Set<Seq<char>>)
    requires
        forall|i: int|
            0 <= i < record.fields.len() ==> plain((#[trigger] record.fields[i]).attrs)
                && !dangling(record.fields[i].ty, known),
    ensures
        record_plan(record, known) is Ok,
        record_plan(record, known)->Ok_0.steps == Seq::new(
            record.fields.len(),
            |i: int|
                NamedStepModel { name: record.fields[i].name, step: inferred(record.fields[i].ty) },
        ),
{
    let fields = record.fields;
    assert forall|i: int| 0 <= i < fields.len() implies field_outcome(fields, i, known) == Ok::<
        StepModel,
        RejectionModel,
    >(inferred(fields[i].ty)) by {
        assert(plain(fields[i].attrs));
        lemma_plain_resolves(fields[i].attrs);
    }
    lemma_first_true_none(refused(fields, known));
    assert(record_plan(record, known)->Ok_0.steps =~= Seq::new(
        fields.len(),
        |i: int| NamedStepModel { name: fields[i].name, step: inferred(fields[i].ty) },
    ));
}

/// A record is refused where the guard or the count of one of its fields mentions a field
/// that is not bound yet: the field itself or one declared after it, and none before it.
pub proof fn lemma_forward_reference_refused(record: RecordModel, known: Set<Seq<char>>, i: int)
    requires
        0 <= i < record.fields.len(),
        resolved(record.fields[i].attrs) is Ok,
        reaches_ahead(record.fields, i, resolved(record.fields[i].attrs)->Ok_0.cond)
            || reaches_ahead(record.fields, i, resolved(record.fields[i].attrs)->Ok_0.count),
    ensures
        record_plan(record, known) is Err,
{
    lemma_refused_field(record, known, i);
}

/// In a record that is planned, a field of the record that the guard or the count of
/// field `i` mentions is declared before field `i`.
pub proof fn lemma_references_are_bound(
    record: RecordModel,
    known: Set<Seq<char>>,
    i: int,
    e: ExpressionModel,
    name: Seq<char>,
)
    requires
        record_plan(record, known) is Ok,
        0 <= i < record.fields.len(),
        resolved(record.fields[i].attrs) is Ok,
        resolved(record.fields[i].attrs)->Ok_0.cond == Some(e) || resolved(
            record.fields[i].attrs,
        )->Ok_0.count == Some(e),
        e.names.contains(name),
        names_of(record.fields).contains(name),
    ensures
        names_of(record.fields).take(i).contains(name),
{
    let names = names_of(record.fields);
    if !names.take(i).contains(name) {
        let j = choose|j: int| 0 <= j < names.len() && names[j] == name;
        if j < i {
            assert(names.take(i)[j] == name);
        } else {
            assert(names.skip(i)[j - i] == name);
        }
        assert(unbound(record.fields, i, name));
        let k = choose|k: int| 0 <= k < e.names.len() && e.names[k] == name;
        assert(unbound(record.fields, i, e.names[k]));
        assert(mentions_unbound(record.fields, i, e));
        lemma_forward_reference_refused(record, known, i);
    }
}
} // verus!
