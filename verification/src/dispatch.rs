//! The plan of a union: one arm for each variant, and the order in which they are tried.

use vstd::prelude::*;
use crate::directive::{
    expression_of, first_expression, resolve, resolved, DirectiveKind, DirectiveSet,
    DirectiveSetModel,
};
use crate::error::{rejection, ConfigError, DecodeError, Rejection, RejectionModel};
use crate::model::result_model;
use crate::plan::{
    arm_models, Arm, ArmModel, Discriminant, DiscriminantModel, Pattern, PatternModel,
    RecordPlanModel, UnionPlan, UnionPlanModel,
};
use crate::record::record_plan;
use crate::registry::Registry;
use crate::search::{
    first_true, lemma_at_most_one, lemma_first_true, lemma_first_true_at, lemma_first_true_none,
    second_true,
};
use crate::schema::{
    fits, lemma_bounds, variant_models, ExpressionModel, Primitive, Union, UnionModel, Variant,
    VariantModel,
};
use crate::text::same_text;

verus! {

/// What selects the variant, as its selector directive gives it.
pub open spec fn selector_of(v: VariantModel) -> Option<ExpressionModel> {
    expression_of(v.attrs, DirectiveKind::Selector)
}

/// Whether a selector's text is the wildcard.
pub open spec fn is_wildcard(text: Seq<char>) -> bool {
    text == "_"@
}

/// Whether the variant is selected by the wildcard.
pub open spec fn is_wild(v: VariantModel) -> bool {
    match selector_of(v) {
        Some(e) => is_wildcard(e.text),
        None => false,
    }
}

/// For each variant, whether its directives fail to resolve.
pub open spec fn misresolved(variants: Seq<VariantModel>) -> Seq<bool> {
    variants.map_values(|v: VariantModel| resolved(v.attrs) is Err)
}

/// For each variant, whether it lacks a selector.
pub open spec fn unselected(variants: Seq<VariantModel>) -> Seq<bool> {
    variants.map_values(|v: VariantModel| selector_of(v) is None)
}

/// For each variant, whether it is selected by the wildcard.
pub open spec fn wild(variants: Seq<VariantModel>) -> Seq<bool> {
    variants.map_values(|v: VariantModel| is_wild(v))
}

/// Whether no variant declares a field.
pub open spec fn fieldless(variants: Seq<VariantModel>) -> bool {
    forall|i: int| 0 <= i < variants.len() ==> (#[trigger] variants[i]).record.fields.len() == 0
}

/// Whether every variant declares a field.
pub open spec fn fielded(variants: Seq<VariantModel>) -> bool {
    forall|i: int| 0 <= i < variants.len() ==> (#[trigger] variants[i]).record.fields.len() > 0
}

/// Whether no variant carries a selector.
pub open spec fn selector_free(variants: Seq<VariantModel>) -> bool {
    forall|i: int| 0 <= i < variants.len() ==> selector_of(#[trigger] variants[i]) is None
}

/// How the union is dispatched, told by the type of its discriminant: the integer type of
/// its representation where it is decoded as a fieldless union, the type it declares where
/// its variants are chosen by their selectors.
///
/// A union none of whose variants has a field or a selector is fieldless, and must declare
/// a representation. Any other union is ambiguous where some of its variants have fields
/// and some have none, or where it declares a representation while a variant carries a
/// selector. Else every variant must carry a selector, and the union must declare the type
/// of its discriminant.
pub open spec fn discriminant_of(u: UnionModel, own: DirectiveSetModel) -> Result<
    DiscriminantModel,
    RejectionModel,
> {
    if fieldless(u.variants) && selector_free(u.variants) {
        match own.representation {
            Some(p) => Ok(DiscriminantModel::Primitive(p)),
            None => Err(rejection(ConfigError::MissingRepresentation, u.name)),
        }
    } else if (!fieldless(u.variants) && !fielded(u.variants)) || (own.representation is Some
        && !selector_free(u.variants)) {
        Err(rejection(ConfigError::AmbiguousUnionMode, u.name))
    } else {
        match first_true(unselected(u.variants)) {
            Some(i) => Err(rejection(ConfigError::MissingSelector, u.variants[i].record.name)),
            None => match own.selector {
                Some(t) => Ok(DiscriminantModel::Declared(t.text)),
                None => Err(rejection(ConfigError::MissingSelector, u.name)),
            },
        }
    }
}

/// The number of variant `i`: the one its declaration gives it; else one more than the
/// number of the variant before it; else, for the first variant, zero.
pub open spec fn value_at(variants: Seq<VariantModel>, i: int) -> int
    decreases i,
{
    match variants[i].discriminant {
        Some(d) => d,
        None => if i <= 0 {
            0
        } else {
            value_at(variants, i - 1) + 1
        },
    }
}

/// For each variant, whether its number is one that the integer type does not hold.
pub open spec fn misfit(variants: Seq<VariantModel>, p: Primitive) -> Seq<bool> {
    Seq::new(variants.len(), |i: int| !fits(p, value_at(variants, i)))
}

/// The second of the variants that are selected by the wildcard, if there are two.
pub open spec fn second_wildcard(variants: Seq<VariantModel>) -> Option<int> {
    second_true(wild(variants))
}

/// What stands against dispatching the variants by `discriminant`: a number that the
/// representation does not hold, or a second wildcard.
pub open spec fn objection(variants: Seq<VariantModel>, discriminant: DiscriminantModel) -> Option<
    RejectionModel,
> {
    match discriminant {
        DiscriminantModel::Primitive(p) => match first_true(misfit(variants, p)) {
            Some(i) => Some(
                rejection(ConfigError::DiscriminantOutOfRange, variants[i].record.name),
            ),
            None => None,
        },
        DiscriminantModel::Declared(_) => match second_wildcard(variants) {
            Some(i) => Some(rejection(ConfigError::DuplicateWildcard, variants[i].record.name)),
            None => None,
        },
    }
}

/// Whether the variants can be dispatched by `discriminant`: none of them carries a
/// selector where it is decoded from the input, each of them where it is handed in.
pub open spec fn suits(variants: Seq<VariantModel>, discriminant: DiscriminantModel) -> bool {
    match discriminant {
        DiscriminantModel::Primitive(_) => fieldless(variants) && selector_free(variants),
        DiscriminantModel::Declared(_) => first_true(unselected(variants)) is None,
    }
}

/// The pattern of variant `i`: what its selector gives, the wildcard apart; its number
/// where it has no selector.
pub open spec fn pattern_at(variants: Seq<VariantModel>, i: int) -> PatternModel {
    match selector_of(variants[i]) {
        Some(e) => if is_wildcard(e.text) {
            PatternModel::Wildcard
        } else {
            PatternModel::Match(e.text)
        },
        None => PatternModel::Value(value_at(variants, i)),
    }
}

/// For each variant, whether its fields are refused.
pub open spec fn unplanned(variants: Seq<VariantModel>, known: Set<Seq<char>>) -> Seq<bool> {
    Seq::new(variants.len(), |i: int| record_plan(variants[i].record, known) is Err)
}

/// The arm of variant `i`: its pattern, and the plan of its fields.
pub open spec fn arm_at(variants: Seq<VariantModel>, i: int, known: Set<Seq<char>>) -> ArmModel {
    ArmModel {
        pattern: pattern_at(variants, i),
        record: record_plan(variants[i].record, known)->Ok_0,
    }
}

/// The arms of the variants, in the order of their declaration.
pub open spec fn declared_arms(variants: Seq<VariantModel>, known: Set<Seq<char>>) -> Seq<
    ArmModel,
> {
    Seq::new(variants.len(), |i: int| arm_at(variants, i, known))
}

/// For each arm, whether its pattern is the wildcard.
pub open spec fn catches_all(arms: Seq<ArmModel>) -> Seq<bool> {
    arms.map_values(|a: ArmModel| a.pattern is Wildcard)
}

/// The arms in the order in which they are tried: as they are declared, but for the
/// wildcard, which comes last.
pub open spec fn relocated(arms: Seq<ArmModel>) -> Seq<ArmModel> {
    match first_true(catches_all(arms)) {
        Some(w) => arms.remove(w).push(arms[w]),
        None => arms,
    }
}

/// How decoding fails where no arm matches: not at all where an arm catches all.
pub open spec fn unmatched_of(arms: Seq<ArmModel>) -> Option<DecodeError> {
    match first_true(catches_all(arms)) {
        Some(_) => None,
        None => Some(DecodeError::UnmatchedSelector),
    }
}

/// The plan that dispatches the union by `discriminant` over the arms of its variants.
pub open spec fn arranged(
    u: UnionModel,
    known: Set<Seq<char>>,
    discriminant: DiscriminantModel,
) -> UnionPlanModel {
    UnionPlanModel {
        name: u.name,
        discriminant,
        arms: relocated(declared_arms(u.variants, known)),
        unmatched: unmatched_of(declared_arms(u.variants, known)),
    }
}

/// The plan of a union whose way of dispatch is settled: it is refused for what stands
/// against the dispatch; else each variant's fields are planned as a record, and the union
/// is refused for the first variant whose fields are.
pub open spec fn dispatched(
    u: UnionModel,
    known: Set<Seq<char>>,
    discriminant: DiscriminantModel,
) -> Result<UnionPlanModel, RejectionModel> {
    match objection(u.variants, discriminant) {
        Some(r) => Err(r),
        None => match first_true(unplanned(u.variants, known)) {
            Some(i) => Err(record_plan(u.variants[i].record, known)->Err_0),
            None => Ok(arranged(u, known, discriminant)),
        },
    }
}

/// The plan of a union, where `known` are the names of the registered types.
///
/// The union's own directives are resolved first, then those of each variant in turn; then
/// the way of dispatch is settled, and the union is planned by it.
pub open spec fn union_plan(u: UnionModel, known: Set<Seq<char>>) -> Result<
    UnionPlanModel,
    RejectionModel,
> {
    match resolved(u.attrs) {
        Err(e) => Err(rejection(e, u.name)),
        Ok(own) => match first_true(misresolved(u.variants)) {
            Some(i) => Err(
                rejection(resolved(u.variants[i].attrs)->Err_0, u.variants[i].record.name),
            ),
            None => match discriminant_of(u, own) {
                Err(r) => Err(r),
                Ok(discriminant) => dispatched(u, known, discriminant),
            },
        },
    }
}

impl Variant {
    /// What selects the variant, as its selector directive gives it.
    pub fn selector(&self) -> (r: Option<String>)
        ensures
            r matches Some(t) ==> selector_of(self@) matches Some(e) && e.text == t@,
            r is None ==> selector_of(self@) is None,
    {
        match first_expression(&self.attrs, DirectiveKind::Selector) {
            Some(e) => Some(e.text),
            None => None,
        }
    }
}

/// The refusal of the first variant whose directives fail to resolve, if one does.
fn first_misresolved(variants: &Vec<Variant>) -> (r: Option<Rejection>)
    ensures
        r is None ==> first_true(misresolved(variant_models(variants@))) is None,
        r matches Some(e) ==> first_true(misresolved(variant_models(variants@))) matches Some(i)
            && e@ == rejection(
            resolved(variant_models(variants@)[i].attrs)->Err_0,
            variant_models(variants@)[i].record.name,
        ),
{
    let ghost model = variant_models(variants@);
    let mut i: usize = 0;
    while i < variants.len()
        invariant
            i <= variants.len(),
            model == variant_models(variants@),
            forall|j: int| 0 <= j < i ==> !misresolved(model)[j],
        decreases variants.len() - i,
    {
        match resolve(&variants[i].attrs) {
            Err(e) => {
                proof {
                    lemma_first_true_at(misresolved(model), i as int);
                }
                return Some(Rejection::new(e, &variants[i].record.name));
            },
            Ok(_) => {},
        }
        i = i + 1;
    }
    proof {
        lemma_first_true_none(misresolved(model));
    }
    None
}

/// The first variant that lacks a selector, if one does.
fn first_unselected(variants: &Vec<Variant>) -> (r: Option<usize>)
    ensures
        r is None ==> first_true(unselected(variant_models(variants@))) is None,
        r matches Some(i) ==> i < variants.len() && first_true(
            unselected(variant_models(variants@)),
        ) == Some(i as int),
{
    let ghost model = variant_models(variants@);
    let mut i: usize = 0;
    while i < variants.len()
        invariant
            i <= variants.len(),
            model == variant_models(variants@),
            forall|j: int| 0 <= j < i ==> !unselected(model)[j],
        decreases variants.len() - i,
    {
        if variants[i].selector().is_none() {
            proof {
                lemma_first_true_at(unselected(model), i as int);
            }
            return Some(i);
        }
        i = i + 1;
    }
    proof {
        lemma_first_true_none(unselected(model));
    }
    None
}

impl Union {
    /// Whether no variant declares a field.
    pub fn is_fieldless(&self) -> (r: bool)
        ensures
            r == fieldless(self@.variants),
    {
        let ghost model = variant_models(self.variants@);
        let mut i: usize = 0;
        while i < self.variants.len()
            invariant
                i <= self.variants.len(),
                model == variant_models(self.variants@),
                forall|j: int| 0 <= j < i ==> (#[trigger] model[j]).record.fields.len() == 0,
            decreases self.variants.len() - i,
        {
            if self.variants[i].record.fields.len() > 0 {
                assert(model[i as int].record.fields.len() > 0);
                return false;
            }
            i = i + 1;
        }
        true
    }

    /// Whether every variant declares a field.
    pub fn is_fielded(&self) -> (r: bool)
        ensures
            r == fielded(self@.variants),
    {
        let ghost model = variant_models(self.variants@);
        let mut i: usize = 0;
        while i < self.variants.len()
            invariant
                i <= self.variants.len(),
                model == variant_models(self.variants@),
                forall|j: int| 0 <= j < i ==> (#[trigger] model[j]).record.fields.len() > 0,
            decreases self.variants.len() - i,
        {
            if self.variants[i].record.fields.len() == 0 {
                assert(model[i as int].record.fields.len() == 0);
                return false;
            }
            i = i + 1;
        }
        true
    }

    /// Whether no variant carries a selector.
    pub fn is_selector_free(&self) -> (r: bool)
        ensures
            r == selector_free(self@.variants),
    {
        let ghost model = variant_models(self.variants@);
        let mut i: usize = 0;
        while i < self.variants.len()
            invariant
                i <= self.variants.len(),
                model == variant_models(self.variants@),
                forall|j: int| 0 <= j < i ==> selector_of(#[trigger] model[j]) is None,
            decreases self.variants.len() - i,
        {
            if self.variants[i].selector().is_some() {
                assert(selector_of(model[i as int]) is Some);
                return false;
            }
            i = i + 1;
        }
        true
    }
}

/// The views of a list of patterns.
pub open spec fn pattern_models(list: Seq<Pattern>) -> Seq<PatternModel> {
    list.map_values(|p: Pattern| p@)
}

/// The numbers of the variants, which the integer type `p` must hold.
fn numbers(variants: &Vec<Variant>, p: Primitive) -> (r: Result<Vec<Pattern>, Rejection>)
    requires
        selector_free(variant_models(variants@)),
    ensures
        r matches Ok(list) ==> list.len() == variants.len() && first_true(
            misfit(variant_models(variants@), p),
        ) is None && pattern_models(list@) == Seq::new(
            variants.len() as nat,
            |i: int| pattern_at(variant_models(variants@), i),
        ),
        r matches Err(e) ==> first_true(misfit(variant_models(variants@), p)) matches Some(i)
            && e@ == rejection(
            ConfigError::DiscriminantOutOfRange,
            variant_models(variants@)[i].record.name,
        ),
{
    let ghost model = variant_models(variants@);
    let mut list: Vec<Pattern> = Vec::new();
    let mut next: i128 = 0;
    let mut i: usize = 0;
    while i < variants.len()
        invariant
            i <= variants.len(),
            list.len() == i,
            model == variant_models(variants@),
            selector_free(model),
            forall|j: int| 0 <= j < i ==> !misfit(model, p)[j],
            forall|j: int| 0 <= j < i ==> (#[trigger] list@[j])@ == pattern_at(model, j),
            i == 0 ==> next == 0,
            i > 0 ==> next == value_at(model, i - 1) + 1,
            next <= 0x1_0000_0000_0000_0000,
        decreases variants.len() - i,
    {
        let value = match variants[i].discriminant {
            Some(d) => d,
            None => next,
        };
        assert(value == value_at(model, i as int));
        proof {
            lemma_bounds(p);
        }
        if !p.holds(value) {
            proof {
                lemma_first_true_at(misfit(model, p), i as int);
            }
            return Err(
                Rejection::new(ConfigError::DiscriminantOutOfRange, &variants[i].record.name),
            );
        }
        assert(selector_of(model[i as int]) is None);
        list.push(Pattern::Value(value));
        next = value + 1;
        i = i + 1;
    }
    proof {
        lemma_first_true_none(misfit(model, p));
        assert(pattern_models(list@) =~= Seq::new(
            variants.len() as nat,
            |i: int| pattern_at(model, i),
        ));
    }
    Ok(list)
}

/// The patterns that the selectors of the variants give, of which one at most may be the
/// wildcard.
fn selections(variants: &Vec<Variant>) -> (r: Result<Vec<Pattern>, Rejection>)
    requires
        first_true(unselected(variant_models(variants@))) is None,
    ensures
        r matches Ok(list) ==> list.len() == variants.len() && second_wildcard(
            variant_models(variants@),
        ) is None && pattern_models(list@) == Seq::new(
            variants.len() as nat,
            |i: int| pattern_at(variant_models(variants@), i),
        ),
        r matches Err(e) ==> second_wildcard(variant_models(variants@)) matches Some(i) && e@
            == rejection(ConfigError::DuplicateWildcard, variant_models(variants@)[i].record.name),
{
    let ghost model = variant_models(variants@);
    proof {
        lemma_first_true(unselected(model));
    }
    let mut list: Vec<Pattern> = Vec::new();
    let mut caught: Option<usize> = None;
    let mut i: usize = 0;
    while i < variants.len()
        invariant
            i <= variants.len(),
            list.len() == i,
            model == variant_models(variants@),
            forall|j: int| 0 <= j < model.len() ==> !unselected(model)[j],
            forall|j: int| 0 <= j < i ==> (#[trigger] list@[j])@ == pattern_at(model, j),
            caught is None ==> forall|j: int| 0 <= j < i ==> !wild(model)[j],
            caught matches Some(w) ==> w < i && wild(model)[w as int] && forall|j: int|
                0 <= j < i && j != w ==> !wild(model)[j],
        decreases variants.len() - i,
    {
        assert(!unselected(model)[i as int]);
        match variants[i].selector() {
            None => {},
            Some(text) => {
                if same_text(text.as_str(), "_") {
                    if let Some(w) = caught {
                        proof {
                            let flags = wild(model);
                            lemma_first_true_at(flags, w as int);
                            let rest = flags.skip(w + 1);
                            lemma_first_true_at(rest, i - w - 1);
                        }
                        return Err(
                            Rejection::new(
                                ConfigError::DuplicateWildcard,
                                &variants[i].record.name,
                            ),
                        );
                    }
                    caught = Some(i);
                    list.push(Pattern::Wildcard);
                } else {
                    list.push(Pattern::Match(text));
                }
            },
        }
        i = i + 1;
    }
    proof {
        let flags = wild(model);
        match caught {
            None => {
                lemma_first_true_none(flags);
            },
            Some(w) => {
                lemma_first_true_at(flags, w as int);
                lemma_first_true_none(flags.skip(w + 1));
            },
        }
        assert(pattern_models(list@) =~= Seq::new(
            variants.len() as nat,
            |i: int| pattern_at(model, i),
        ));
    }
    Ok(list)
}

/// Moves the arm that catches all, if there is one, behind the others.
pub fn relocate(arms: Vec<Arm>) -> (r: Vec<Arm>)
    ensures
        arm_models(r@) == relocated(arm_models(arms@)),
{
    let ghost model = arm_models(arms@);
    let mut out = arms;
    let mut i: usize = 0;
    while i < out.len()
        invariant
            i <= out.len(),
            model == arm_models(arms@),
            model == arm_models(out@),
            forall|j: int| 0 <= j < i ==> !catches_all(model)[j],
        decreases out.len() - i,
    {
        let found = match &out[i].pattern {
            Pattern::Wildcard => true,
            _ => false,
        };
        if found {
            proof {
                lemma_first_true_at(catches_all(model), i as int);
            }
            let arm = out.remove(i);
            out.push(arm);
            assert(arm_models(out@) =~= model.remove(i as int).push(model[i as int]));
            return out;
        }
        i = i + 1;
    }
    proof {
        lemma_first_true_none(catches_all(model));
    }
    out
}

/// Whether one of the arms catches all.
pub fn has_wildcard(arms: &Vec<Arm>) -> (r: bool)
    ensures
        r == (first_true(catches_all(arm_models(arms@))) is Some),
{
    let ghost model = arm_models(arms@);
    let mut i: usize = 0;
    while i < arms.len()
        invariant
            i <= arms.len(),
            model == arm_models(arms@),
            forall|j: int| 0 <= j < i ==> !catches_all(model)[j],
        decreases arms.len() - i,
    {
        let found = match &arms[i].pattern {
            Pattern::Wildcard => true,
            _ => false,
        };
        if found {
            proof {
                lemma_first_true_at(catches_all(model), i as int);
            }
            return true;
        }
        i = i + 1;
    }
    proof {
        lemma_first_true_none(catches_all(model));
    }
    false
}

impl Union {
    /// Settles how the union is dispatched, and by what type of discriminant.
    ///
    /// A union none of whose variants has a field or a selector is fieldless: its
    /// discriminant is the integer type of its representation, and without one it is
    /// refused with `MissingRepresentation`. Any other union is refused with
    /// `AmbiguousUnionMode` where some of its variants have fields and some have none, or
    /// where it declares a representation while a variant carries a selector. Else it is
    /// refused with `MissingSelector` for the first variant that lacks a selector, or for
    /// itself where it does not declare the type of its discriminant.
    pub fn discriminant(&self, own: &DirectiveSet) -> (r: Result<Discriminant, Rejection>)
        ensures
            result_model(r) == discriminant_of(self@, own@),
    {
        let fieldless = self.is_fieldless();
        let selector_free = self.is_selector_free();
        if fieldless && selector_free {
            return match own.representation {
                Some(p) => Ok(Discriminant::Primitive(p)),
                None => Err(Rejection::new(ConfigError::MissingRepresentation, &self.name)),
            };
        }
        if (!fieldless && !self.is_fielded()) || (own.representation.is_some() && !selector_free) {
            return Err(Rejection::new(ConfigError::AmbiguousUnionMode, &self.name));
        }
        match first_unselected(&self.variants) {
            Some(i) => Err(
                Rejection::new(ConfigError::MissingSelector, &self.variants[i].record.name),
            ),
            None => match &own.selector {
                Some(t) => Ok(Discriminant::Declared(t.text.clone())),
                None => Err(Rejection::new(ConfigError::MissingSelector, &self.name)),
            },
        }
    }

    /// Builds the plan of the union: the type of its discriminant and one arm for each
    /// variant, in the order of their declaration but for the wildcard, which is tried
    /// last.
    ///
    /// The union's own directives are resolved first, then those of each variant in turn;
    /// then the way of dispatch is settled. A fieldless union is refused with
    /// `DiscriminantOutOfRange` for the first variant whose number its representation does
    /// not hold; a union dispatched by selectors with `DuplicateWildcard` for the second
    /// variant that the wildcard selects. Then each variant's fields are built as a
    /// record, and the union is refused for the first variant whose fields are.
    pub fn build(&self, registry: &Registry) -> (r: Result<UnionPlan, Rejection>)
        ensures
            result_model(r) == union_plan(self@, registry@.dom()),
            r matches Ok(plan) ==> plan@.well_formed(),
    {
        let own = match resolve(&self.attrs) {
            Err(e) => {
                return Err(Rejection::new(e, &self.name));
            },
            Ok(own) => own,
        };
        if let Some(e) = first_misresolved(&self.variants) {
            return Err(e);
        }
        let discriminant = match self.discriminant(&own) {
            Err(e) => {
                return Err(e);
            },
            Ok(d) => d,
        };
        proof {
            lemma_discriminant_suits(self@, own@);
        }
        let r = dispatch(self, discriminant, registry);
        proof {
            if r is Ok {
                lemma_well_formed(self@, registry@.dom());
            }
        }
        r
    }
}

/// The patterns of the variants under `discriminant`, or what stands against dispatching
/// them by it.
fn patterns(variants: &Vec<Variant>, discriminant: &Discriminant) -> (r: Result<
    Vec<Pattern>,
    Rejection,
>)
    requires
        suits(variant_models(variants@), discriminant@),
    ensures
        r matches Ok(list) ==> list.len() == variants.len() && objection(
            variant_models(variants@),
            discriminant@,
        ) is None && pattern_models(list@) == Seq::new(
            variants.len() as nat,
            |i: int| pattern_at(variant_models(variants@), i),
        ),
        r matches Err(e) ==> objection(variant_models(variants@), discriminant@) == Some(e@),
{
    match discriminant {
        Discriminant::Primitive(p) => numbers(variants, *p),
        Discriminant::Declared(_) => selections(variants),
    }
}

/// The arms of the variants in the order of their declaration, each with its pattern, or
/// the refusal of the first variant whose fields are refused.
fn arms_of(variants: &Vec<Variant>, patterns: &Vec<Pattern>, registry: &Registry) -> (r: Result<
    Vec<Arm>,
    Rejection,
>)
    requires
        patterns.len() == variants.len(),
        pattern_models(patterns@) == Seq::new(
            variants.len() as nat,
            |i: int| pattern_at(variant_models(variants@), i),
        ),
    ensures
        r matches Ok(arms) ==> first_true(unplanned(variant_models(variants@), registry@.dom()))
            is None && arm_models(arms@) == declared_arms(
            variant_models(variants@),
            registry@.dom(),
        ),
        r matches Err(e) ==> first_true(
            unplanned(variant_models(variants@), registry@.dom()),
        ) matches Some(i) && Err::<RecordPlanModel, RejectionModel>(e@) == record_plan(
            variant_models(variants@)[i].record,
            registry@.dom(),
        ),
{
    let ghost model = variant_models(variants@);
    let ghost known = registry@.dom();
    let mut arms: Vec<Arm> = Vec::new();
    let mut i: usize = 0;
    while i < variants.len()
        invariant
            i <= variants.len(),
            arms.len() == i,
            patterns.len() == variants.len(),
            model == variant_models(variants@),
            known == registry@.dom(),
            pattern_models(patterns@) == Seq::new(
                variants.len() as nat,
                |i: int| pattern_at(model, i),
            ),
            forall|j: int| 0 <= j < i ==> !unplanned(model, known)[j],
            forall|j: int| 0 <= j < i ==> (#[trigger] arms@[j])@ == arm_at(model, j, known),
        decreases variants.len() - i,
    {
        match variants[i].record.build(registry) {
            Err(e) => {
                proof {
                    lemma_first_true_at(unplanned(model, known), i as int);
                }
                return Err(e);
            },
            Ok(record) => {
                let pattern = patterns[i].clone();
                assert(pattern@ == pattern_models(patterns@)[i as int]);
                arms.push(Arm { pattern, record });
            },
        }
        i = i + 1;
    }
    proof {
        lemma_first_true_none(unplanned(model, known));
        assert(arm_models(arms@) =~= declared_arms(model, known));
    }
    Ok(arms)
}

/// Plans the union by the way of dispatch that is settled for it.
fn dispatch(union: &Union, discriminant: Discriminant, registry: &Registry) -> (r: Result<
    UnionPlan,
    Rejection,
>)
    requires
        suits(union@.variants, discriminant@),
    ensures
        result_model(r) == dispatched(union@, registry@.dom(), discriminant@),
{
    let patterns = match patterns(&union.variants, &discriminant) {
        Err(e) => {
            return Err(e);
        },
        Ok(patterns) => patterns,
    };
    let arms = match arms_of(&union.variants, &patterns, registry) {
        Err(e) => {
            return Err(e);
        },
        Ok(arms) => arms,
    };
    let unmatched = if has_wildcard(&arms) {
        None
    } else {
        Some(DecodeError::UnmatchedSelector)
    };
    Ok(UnionPlan { name: union.name.clone(), discriminant, arms: relocate(arms), unmatched })
}

/// Moving the arm that catches all behind the others loses no arm, adds none, and leaves
/// the others in their order.
pub proof fn lemma_relocation_keeps_arms(arms: Seq<ArmModel>)
    ensures
        relocated(arms).len() == arms.len(),
        relocated(arms).to_multiset() == arms.to_multiset(),
        first_true(catches_all(arms)) is None ==> relocated(arms) == arms,
        first_true(catches_all(arms)) matches Some(w) ==> relocated(arms).last() == arms[w]
            && forall|i: int|
            0 <= i < arms.len() - 1 ==> #[trigger] relocated(arms)[i] == arms[if i < w {
                i
            } else {
                i + 1
            }],
{
    lemma_first_true(catches_all(arms));
    if let Some(w) = first_true(catches_all(arms)) {
        let rest = arms.remove(w);
        arms.to_multiset_ensures();
        rest.to_multiset_ensures();
        assert(arms.contains(arms[w]));
        assert(rest.to_multiset() == arms.to_multiset().remove(arms[w]));
        assert(rest.push(arms[w]).to_multiset() == rest.to_multiset().insert(arms[w]));
        assert(relocated(arms).to_multiset() =~= arms.to_multiset()) by {
            broadcast use vstd::multiset::group_multiset_axioms;
        }
    }
}

/// The way of dispatch that is settled for a union suits its variants.
pub proof fn lemma_discriminant_suits(u: UnionModel, own: DirectiveSetModel)
    requires
        discriminant_of(u, own) is Ok,
    ensures
        suits(u.variants, discriminant_of(u, own)->Ok_0),
        discriminant_of(u, own)->Ok_0 matches DiscriminantModel::Primitive(p)
            ==> own.representation == Some(p),
{
}

/// The way of dispatch that is settled for a union whose directives resolve.
pub open spec fn settled(u: UnionModel) -> DiscriminantModel {
    discriminant_of(u, resolved(u.attrs)->Ok_0)->Ok_0
}

/// What a union that is planned has passed: its directives resolve, its way of dispatch is
/// settled and suits its variants, nothing stands against it, and the fields of each
/// variant are planned. Its plan dispatches by the settled discriminant.
pub proof fn lemma_planned_union(u: UnionModel, known: Set<Seq<char>>)
    requires
        union_plan(u, known) is Ok,
    ensures
        resolved(u.attrs) is Ok,
        first_true(misresolved(u.variants)) is None,
        discriminant_of(u, resolved(u.attrs)->Ok_0) is Ok,
        suits(u.variants, settled(u)),
        objection(u.variants, settled(u)) is None,
        first_true(unplanned(u.variants, known)) is None,
        union_plan(u, known)->Ok_0 == arranged(u, known, settled(u)),
{
    lemma_discriminant_suits(u, resolved(u.attrs)->Ok_0);
}

/// Where a union is planned, the fields of each variant are.
pub proof fn lemma_variants_planned(u: UnionModel, known: Set<Seq<char>>)
    requires
        union_plan(u, known) is Ok,
    ensures
        forall|i: int|
            0 <= i < u.variants.len() ==> #[trigger] record_plan(u.variants[i].record, known) is Ok,
{
    lemma_planned_union(u, known);
    lemma_first_true(unplanned(u.variants, known));
    assert forall|i: int| 0 <= i < u.variants.len() implies #[trigger] record_plan(
        u.variants[i].record,
        known,
    ) is Ok by {
        assert(!unplanned(u.variants, known)[i]);
    }
}

/// An arm catches all exactly where the wildcard selects its variant.
pub proof fn lemma_wild_arms(variants: Seq<VariantModel>, known: Set<Seq<char>>)
    ensures
        catches_all(declared_arms(variants, known)) == wild(variants),
{
    assert(catches_all(declared_arms(variants, known)) =~= wild(variants));
}

/// Where nothing stands against the dispatch, the wildcard selects one variant at most,
/// and none where the discriminant is decoded from the input.
pub proof fn lemma_one_wildcard(variants: Seq<VariantModel>, discriminant: DiscriminantModel)
    requires
        suits(variants, discriminant),
        objection(variants, discriminant) is None,
    ensures
        forall|i: int, j: int|
            0 <= i < variants.len() && 0 <= j < variants.len() && wild(variants)[i] && wild(
                variants,
            )[j] ==> i == j,
        discriminant is Primitive ==> forall|i: int|
            0 <= i < variants.len() ==> !wild(variants)[i],
{
    match discriminant {
        DiscriminantModel::Primitive(_) => {
            assert forall|i: int| 0 <= i < variants.len() implies !wild(variants)[i] by {
                assert(selector_of(variants[i]) is None);
            }
        },
        DiscriminantModel::Declared(_) => {
            lemma_at_most_one(wild(variants));
        },
    }
}

/// Among arms of which one at most catches all, moving it behind the others leaves no arm
/// before the last that catches all; and the last one does exactly where one did.
pub proof fn lemma_relocated_last(arms: Seq<ArmModel>)
    requires
        forall|i: int, j: int|
            0 <= i < arms.len() && 0 <= j < arms.len() && catches_all(arms)[i] && catches_all(
                arms,
            )[j] ==> i == j,
    ensures
        relocated(arms).len() == arms.len(),
        forall|i: int|
            0 <= i < arms.len() - 1 ==> !((#[trigger] relocated(arms)[i]).pattern is Wildcard),
        unmatched_of(arms) is None <==> arms.len() > 0 && relocated(arms).last().pattern
            is Wildcard,
        unmatched_of(arms) is Some ==> unmatched_of(arms) == Some(DecodeError::UnmatchedSelector),
{
    let flags = catches_all(arms);
    lemma_first_true(flags);
    lemma_relocation_keeps_arms(arms);
    match first_true(flags) {
        None => {
            assert forall|i: int| 0 <= i < arms.len() implies !(arms[i].pattern is Wildcard) by {
                assert(!flags[i]);
            }
        },
        Some(w) => {
            assert(flags[w]);
            assert forall|i: int| 0 <= i < arms.len() - 1 implies !((
            #[trigger] relocated(arms)[i]).pattern is Wildcard) by {
                let k = if i < w {
                    i
                } else {
                    i + 1
                };
                assert(relocated(arms)[i] == arms[k]);
                assert(flags[k] == (arms[k].pattern is Wildcard));
            }
        },
    }
}

/// In the plan of a union every variant has its arm, and an arm that catches all comes
/// last: no arm before the last is the wildcard. Decoding fails on a discriminant that no
/// arm matches exactly where no arm catches all.
pub proof fn lemma_wildcard_last(u: UnionModel, known: Set<Seq<char>>)
    requires
        union_plan(u, known) is Ok,
    ensures
        union_plan(u, known)->Ok_0.arms.len() == u.variants.len(),
        forall|i: int|
            0 <= i < u.variants.len() - 1 ==> !((#[trigger] union_plan(
                u,
                known,
            )->Ok_0.arms[i]).pattern is Wildcard),
        union_plan(u, known)->Ok_0.unmatched is None <==> u.variants.len() > 0 && union_plan(
            u,
            known,
        )->Ok_0.arms.last().pattern is Wildcard,
        union_plan(u, known)->Ok_0.unmatched is Some ==> union_plan(u, known)->Ok_0.unmatched
            == Some(DecodeError::UnmatchedSelector),
{
    lemma_planned_union(u, known);
    lemma_wild_arms(u.variants, known);
    lemma_one_wildcard(u.variants, settled(u));
    lemma_relocated_last(declared_arms(u.variants, known));
}

/// Whether `arm` is the arm of variant `i` of a fieldless union that is represented by
/// `p`: its pattern is the variant's number, which `p` holds; it goes by the variant's
/// name and decodes no field.
pub open spec fn arm_of_number(
    arm: ArmModel,
    variants: Seq<VariantModel>,
    i: int,
    p: Primitive,
) -> bool {
    &&& arm.pattern == PatternModel::Value(value_at(variants, i))
    &&& fits(p, value_at(variants, i))
    &&& arm.record.name == variants[i].record.name
    &&& arm.record.steps.len() == 0
}

/// The arm of a fieldless variant that carries no selector and whose number the
/// representation holds.
pub proof fn lemma_arm_of_number(
    variants: Seq<VariantModel>,
    known: Set<Seq<char>>,
    i: int,
    p: Primitive,
)
    requires
        0 <= i < variants.len(),
        selector_of(variants[i]) is None,
        variants[i].record.fields.len() == 0,
        fits(p, value_at(variants, i)),
    ensures
        arm_of_number(arm_at(variants, i, known), variants, i, p),
{
    lemma_first_true_none(crate::record::refused(variants[i].record.fields, known));
    crate::record::lemma_declaration_order(variants[i].record, known);
}

/// The plan of a fieldless union has exactly one arm for each variant, in the order of
/// declaration: its pattern is the variant's number, which the representation holds, and
/// it decodes no field. No arm catches all, and an unmatched discriminant is a failure.
pub proof fn lemma_fieldless_arms(u: UnionModel, known: Set<Seq<char>>)
    requires
        union_plan(u, known) is Ok,
        union_plan(u, known)->Ok_0.discriminant is Primitive,
    ensures
        fieldless(u.variants),
        selector_free(u.variants),
        resolved(u.attrs) is Ok,
        resolved(u.attrs)->Ok_0.representation == Some(
            union_plan(u, known)->Ok_0.discriminant->Primitive_0,
        ),
        union_plan(u, known)->Ok_0.arms.len() == u.variants.len(),
        union_plan(u, known)->Ok_0.unmatched == Some(DecodeError::UnmatchedSelector),
        forall|i: int|
            0 <= i < u.variants.len() ==> arm_of_number(
                #[trigger] union_plan(u, known)->Ok_0.arms[i],
                u.variants,
                i,
                union_plan(u, known)->Ok_0.discriminant->Primitive_0,
            ),
{
    let variants = u.variants;
    lemma_planned_union(u, known);
    lemma_discriminant_suits(u, resolved(u.attrs)->Ok_0);
    let p = settled(u)->Primitive_0;
    let arms = declared_arms(variants, known);
    lemma_wild_arms(variants, known);
    lemma_one_wildcard(variants, settled(u));
    lemma_first_true_none(catches_all(arms));
    lemma_first_true(misfit(variants, p));
    assert forall|i: int| 0 <= i < variants.len() implies arm_of_number(
        #[trigger] arms[i],
        variants,
        i,
        p,
    ) by {
        assert(!misfit(variants, p)[i]);
        lemma_arm_of_number(variants, known, i, p);
    }
}

/// Where each variant carries a selector, no arm's pattern is a number, before and after
/// the arm that catches all is moved.
pub proof fn lemma_selected_arms(variants: Seq<VariantModel>, known: Set<Seq<char>>)
    requires
        first_true(unselected(variants)) is None,
    ensures
        forall|i: int|
            0 <= i < variants.len() ==> !((#[trigger] relocated(
                declared_arms(variants, known),
            )[i]).pattern is Value),
{
    let arms = declared_arms(variants, known);
    lemma_first_true(unselected(variants));
    lemma_first_true(catches_all(arms));
    lemma_relocation_keeps_arms(arms);
    assert forall|i: int| 0 <= i < arms.len() implies !(arms[i].pattern is Value) by {
        assert(!unselected(variants)[i]);
    }
    assert forall|i: int| 0 <= i < variants.len() implies !((#[trigger] relocated(
        arms,
    )[i]).pattern is Value) by {
        match first_true(catches_all(arms)) {
            None => {
                assert(relocated(arms)[i] == arms[i]);
            },
            Some(w) => {
                if i == arms.len() - 1 {
                    assert(relocated(arms)[i] == arms[w]);
                } else {
                    let k = if i < w {
                        i
                    } else {
                        i + 1
                    };
                    assert(relocated(arms)[i] == arms[k]);
                }
            },
        }
    }
}

/// The plan of a union is one that dispatch can follow.
pub proof fn lemma_well_formed(u: UnionModel, known: Set<Seq<char>>)
    requires
        union_plan(u, known) is Ok,
    ensures
        union_plan(u, known)->Ok_0.well_formed(),
{
    lemma_planned_union(u, known);
    lemma_wildcard_last(u, known);
    match settled(u) {
        DiscriminantModel::Primitive(p) => {
            lemma_fieldless_arms(u, known);
        },
        DiscriminantModel::Declared(_) => {
            lemma_selected_arms(u.variants, known);
        },
    }
}

/// A union that declares a representation is refused where one of its variants has a
/// field or carries a selector.
pub proof fn lemma_representation_excludes(u: UnionModel, known: Set<Seq<char>>, i: int)
    requires
        resolved(u.attrs) is Ok,
        resolved(u.attrs)->Ok_0.representation is Some,
        0 <= i < u.variants.len(),
        u.variants[i].record.fields.len() > 0 || selector_of(u.variants[i]) is Some,
    ensures
        union_plan(u, known) is Err,
{
    let variants = u.variants;
    let own = resolved(u.attrs)->Ok_0;
    if first_true(misresolved(variants)) is None {
        lemma_first_true(unselected(variants));
        if selector_free(variants) {
            assert(selector_of(variants[i]) is None);
            assert(!fieldless(variants));
            if fielded(variants) {
                assert(unselected(variants)[i]);
            }
        }
    }
}
} // verus!
