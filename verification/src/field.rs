//! The plan of one field: its directives laid over what its type infers.

use vstd::prelude::*;
use crate::directive::{DirectiveSet, DirectiveSetModel};
use crate::error::ConfigError;
use crate::infer::{dangling, infer, inferred};
use crate::model::result_model;
use crate::plan::{CountModel, CountPolicy, Step, StepModel};
use crate::registry::Registry;
use crate::schema::{Field, TypeDescriptor, TypeModel};

verus! {

/// The step that decodes the field's value, before any wrapper. A decoder given explicitly
/// is taken as it is and the type is not looked at; else a sequence with a count repeats its
/// inferred inner step that many times; else the type decides alone.
pub open spec fn base_step(ty: TypeModel, set: DirectiveSetModel) -> StepModel {
    match set.decoder {
        Some(e) => StepModel::DecodeExplicit(e.text),
        None => match (ty, set.count) {
            (TypeModel::Sequence(inner), Some(c)) => StepModel::DecodeSequence(
                Box::new(inferred(*inner)),
                CountModel::Exact(c.text),
            ),
            _ => inferred(ty),
        },
    }
}

/// `step` under the wrappers that the directives ask for: the predicate next to the step,
/// the guard outermost, so that the guard is tested before anything is decoded and the
/// predicate only on a value that was decoded.
pub open spec fn wrapped(step: StepModel, set: DirectiveSetModel) -> StepModel {
    let checked = match set.verify {
        Some(p) => StepModel::VerifyWrapper { predicate: p.text, inner: Box::new(step) },
        None => step,
    };
    match set.cond {
        Some(g) => StepModel::CondWrapper { guard: g.text, inner: Box::new(checked) },
        None => checked,
    }
}

/// The step of a field of type `ty` under the directives `set`.
pub open spec fn field_step(ty: TypeModel, set: DirectiveSetModel) -> StepModel {
    wrapped(base_step(ty, set), set)
}

/// The plan of a field of type `ty` under the directives `set`, where `known` are the
/// names of the registered types. A guard on a type that is not optional is refused; so is,
/// where no decoder is given, a type that comes down to a named type that is not known.
pub open spec fn planned(ty: TypeModel, set: DirectiveSetModel, known: Set<Seq<char>>) -> Result<
    StepModel,
    ConfigError,
> {
    if set.cond is Some && !(ty is Optional) {
        Err(ConfigError::CondOnNonOptional)
    } else if set.decoder is None && dangling(ty, known) {
        Err(ConfigError::UnresolvedNamedType)
    } else {
        Ok(field_step(ty, set))
    }
}

/// The step that decodes the field's value, before any wrapper.
pub fn build_base(ty: &TypeDescriptor, set: &DirectiveSet) -> (r: Step)
    ensures
        r@ == base_step(ty@, set@),
{
    match &set.decoder {
        Some(e) => Step::DecodeExplicit(e.text.clone()),
        None => match (ty, &set.count) {
            (TypeDescriptor::Sequence(inner), Some(c)) => Step::DecodeSequence(
                Box::new(infer(inner)),
                CountPolicy::Exact(c.text.clone()),
            ),
            _ => infer(ty),
        },
    }
}

/// Lays the wrappers that the directives ask for over `step`.
pub fn wrap(step: Step, set: &DirectiveSet) -> (r: Step)
    ensures
        r@ == wrapped(step@, set@),
{
    let checked = match &set.verify {
        Some(p) => Step::VerifyWrapper { predicate: p.text.clone(), inner: Box::new(step) },
        None => step,
    };
    match &set.cond {
        Some(g) => Step::CondWrapper { guard: g.text.clone(), inner: Box::new(checked) },
        None => checked,
    }
}

impl Field {
    /// Builds the step of the field under its resolved directives.
    ///
    /// Fails with `CondOnNonOptional` where a guard is given and the type is not optional;
    /// else with `UnresolvedNamedType` where no decoder is given and the type comes down to
    /// a named type that `registry` does not hold.
    pub fn build(&self, directives: &DirectiveSet, registry: &Registry) -> (r: Result<
        Step,
        ConfigError,
    >)
        ensures
            result_model(r) == planned(self@.ty, directives@, registry@.dom()),
    {
        let optional = match &self.ty {
            TypeDescriptor::Optional(_) => true,
            _ => false,
        };
        if directives.cond.is_some() && !optional {
            return Err(ConfigError::CondOnNonOptional);
        }
        if directives.decoder.is_none() && self.ty.is_dangling(registry) {
            return Err(ConfigError::UnresolvedNamedType);
        }
        Ok(wrap(build_base(&self.ty, directives), directives))
    }
}

/// The step under its wrappers.
pub open spec fn unwrapped(step: StepModel) -> StepModel
    decreases step,
{
    match step {
        StepModel::VerifyWrapper { predicate, inner } => unwrapped(*inner),
        StepModel::CondWrapper { guard, inner } => unwrapped(*inner),
        _ => step,
    }
}

/// Under the wrappers of a field's step lies the step that decodes its value.
pub proof fn lemma_wrappers_keep_base(ty: TypeModel, set: DirectiveSetModel)
    ensures
        unwrapped(field_step(ty, set)) == base_step(ty, set),
{
    let base = base_step(ty, set);
    assert(unwrapped(base) == base) by {
        match ty {
            TypeModel::Primitive(_) => {},
            TypeModel::Optional(_) => {},
            TypeModel::Sequence(_) => {},
            TypeModel::Named(_) => {},
        }
    }
    let checked = match set.verify {
        Some(p) => StepModel::VerifyWrapper { predicate: p.text, inner: Box::new(base) },
        None => base,
    };
    assert(unwrapped(checked) == base);
}

/// An optional field without a guard and without a decoder of its own is decoded by
/// trying the step that its inner type infers, with nothing around it but the predicate,
/// if it has one.
pub proof fn lemma_optional_is_tried(
    inner: TypeModel,
    set: DirectiveSetModel,
    known: Set<Seq<char>>,
    step: StepModel,
)
    requires
        set.cond is None,
        set.decoder is None,
        planned(TypeModel::Optional(Box::new(inner)), set, known) == Ok::<StepModel, ConfigError>(
            step,
        ),
    ensures
        unwrapped(step) == StepModel::DecodeOptional(Box::new(inferred(inner))),
        set.verify is None ==> step == StepModel::DecodeOptional(Box::new(inferred(inner))),
        set.verify matches Some(p) ==> step == (StepModel::VerifyWrapper {
            predicate: p.text,
            inner: Box::new(StepModel::DecodeOptional(Box::new(inferred(inner)))),
        }),
{
    lemma_wrappers_keep_base(TypeModel::Optional(Box::new(inner)), set);
}

/// A sequence without a decoder of its own is decoded as many times as its count gives,
/// and without a count for as long as its items decode.
pub proof fn lemma_count_decides_policy(
    inner: TypeModel,
    set: DirectiveSetModel,
    known: Set<Seq<char>>,
    step: StepModel,
)
    requires
        set.decoder is None,
        planned(TypeModel::Sequence(Box::new(inner)), set, known) == Ok::<StepModel, ConfigError>(
            step,
        ),
    ensures
        set.count matches Some(c) ==> unwrapped(step) == StepModel::DecodeSequence(
            Box::new(inferred(inner)),
            CountModel::Exact(c.text),
        ),
        set.count is None ==> unwrapped(step) == StepModel::DecodeSequence(
            Box::new(inferred(inner)),
            CountModel::Unbounded,
        ),
{
    lemma_wrappers_keep_base(TypeModel::Sequence(Box::new(inner)), set);
}

/// A field with a guard and a predicate has both wrappers: the guard outermost, the
/// predicate within it, and within that the step that decodes the value.
pub proof fn lemma_guard_wraps_predicate(
    ty: TypeModel,
    set: DirectiveSetModel,
    known: Set<Seq<char>>,
    step: StepModel,
)
    requires
        set.cond is Some,
        set.verify is Some,
        planned(ty, set, known) == Ok::<StepModel, ConfigError>(step),
    ensures
        step == (StepModel::CondWrapper {
            guard: set.cond->0.text,
            inner: Box::new(
                StepModel::VerifyWrapper {
                    predicate: set.verify->0.text,
                    inner: Box::new(base_step(ty, set)),
                },
            ),
        }),
{
}
} // verus!
