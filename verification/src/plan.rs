//! The decoding plan: what synthesis gives out.

use vstd::prelude::*;
use crate::error::DecodeError;
use crate::schema::{fits, Primitive};

verus! {

/// How many items a sequence step decodes.
#[derive(Clone, Debug, PartialEq, Eq)]
pub enum CountPolicy {
    /// As many as decode: up to the first item that fails, which consumes nothing.
    Unbounded,
    /// As many as the expression gives at decode time.
    Exact(String),
}

/// The model of a [`CountPolicy`].
pub enum CountModel {
    Unbounded,
    Exact(Seq<char>),
}

impl View for CountPolicy {
    type V = CountModel;

    open spec fn view(&self) -> CountModel {
        match self {
            CountPolicy::Unbounded => CountModel::Unbounded,
            CountPolicy::Exact(e) => CountModel::Exact(e@),
        }
    }
}

/// One node of a plan.
#[derive(Debug, PartialEq, Eq)]
pub enum Step {
    /// Decode a big-endian integer.
    DecodePrimitive(Primitive),
    /// Try the inner step; where it fails, the value is absent and nothing is consumed.
    DecodeOptional(Box<Step>),
    /// Repeat the inner step.
    DecodeSequence(Box<Step>, CountPolicy),
    /// Decode by the plan of the named type.
    DecodeNested(String),
    /// Decode by the expression its author gave, taken as it is.
    DecodeExplicit(String),
    /// Run the inner step, then test the predicate on its value; fail where it is false.
    VerifyWrapper { predicate: String, inner: Box<Step> },
    /// Test the guard first; where it is false the value is absent, nothing is consumed and
    /// the inner step does not run.
    CondWrapper { guard: String, inner: Box<Step> },
}

/// The model of a [`Step`].
pub enum StepModel {
    DecodePrimitive(Primitive),
    DecodeOptional(Box<StepModel>),
    DecodeSequence(Box<StepModel>, CountModel),
    DecodeNested(Seq<char>),
    DecodeExplicit(Seq<char>),
    VerifyWrapper { predicate: Seq<char>, inner: Box<StepModel> },
    CondWrapper { guard: Seq<char>, inner: Box<StepModel> },
}

/// The model of a step.
pub open spec fn step_model(step: Step) -> StepModel
    decreases step,
{
    match step {
        Step::DecodePrimitive(p) => StepModel::DecodePrimitive(p),
        Step::DecodeOptional(inner) => StepModel::DecodeOptional(Box::new(step_model(*inner))),
        Step::DecodeSequence(inner, count) => StepModel::DecodeSequence(
            Box::new(step_model(*inner)),
            count@,
        ),
        Step::DecodeNested(id) => StepModel::DecodeNested(id@),
        Step::DecodeExplicit(e) => StepModel::DecodeExplicit(e@),
        Step::VerifyWrapper { predicate, inner } => StepModel::VerifyWrapper {
            predicate: predicate@,
            inner: Box::new(step_model(*inner)),
        },
        Step::CondWrapper { guard, inner } => StepModel::CondWrapper {
            guard: guard@,
            inner: Box::new(step_model(*inner)),
        },
    }
}

impl View for Step {
    type V = StepModel;

    open spec fn view(&self) -> StepModel {
        step_model(*self)
    }
}

impl Clone for Step {
    fn clone(&self) -> (r: Self)
        ensures
            r@ == self@,
        decreases self,
    {
        match self {
            Step::DecodePrimitive(p) => Step::DecodePrimitive(*p),
            Step::DecodeOptional(inner) => Step::DecodeOptional(Box::new((**inner).clone())),
            Step::DecodeSequence(inner, count) => {
                let count = match count {
                    CountPolicy::Unbounded => CountPolicy::Unbounded,
                    CountPolicy::Exact(e) => CountPolicy::Exact(e.clone()),
                };
                Step::DecodeSequence(Box::new((**inner).clone()), count)
            },
            Step::DecodeNested(id) => Step::DecodeNested(id.clone()),
            Step::DecodeExplicit(e) => Step::DecodeExplicit(e.clone()),
            Step::VerifyWrapper { predicate, inner } => Step::VerifyWrapper {
                predicate: predicate.clone(),
                inner: Box::new((**inner).clone()),
            },
            Step::CondWrapper { guard, inner } => Step::CondWrapper {
                guard: guard.clone(),
                inner: Box::new((**inner).clone()),
            },
        }
    }
}

/// The step that decodes one field, under the field's name.
#[derive(Clone, Debug, PartialEq, Eq)]
pub struct NamedStep {
    pub name: String,
    pub step: Step,
}

/// The model of a [`NamedStep`].
pub struct NamedStepModel {
    pub name: Seq<char>,
    pub step: StepModel,
}

impl View for NamedStep {
    type V = NamedStepModel;

    open spec fn view(&self) -> NamedStepModel {
        NamedStepModel { name: self.name@, step: self.step@ }
    }
}

/// The views of a list of steps.
pub open spec fn step_models(list: Seq<NamedStep>) -> Seq<NamedStepModel> {
    list.map_values(|s: NamedStep| s@)
}

/// How the decoded fields are put together into the value.
#[derive(Clone, Copy, Debug, PartialEq, Eq, Structural)]
pub enum Construction {
    /// By position, in the order of the steps.
    Positional,
    /// By the names of the steps.
    Named,
}

/// The plan of a record: its steps in the order in which they run, and how to build the value.
#[derive(Clone, Debug, PartialEq, Eq)]
pub struct RecordPlan {
    /// The name of the type, or of the variant, that is built.
    pub name: String,
    pub steps: Vec<NamedStep>,
    pub construction: Construction,
}

/// The model of a [`RecordPlan`].
pub struct RecordPlanModel {
    pub name: Seq<char>,
    pub steps: Seq<NamedStepModel>,
    pub construction: Construction,
}

impl View for RecordPlan {
    type V = RecordPlanModel;

    open spec fn view(&self) -> RecordPlanModel {
        RecordPlanModel {
            name: self.name@,
            steps: step_models(self.steps@),
            construction: self.construction,
        }
    }
}

/// What the discriminant of a union is compared with to select an arm.
#[derive(Debug, PartialEq, Eq)]
pub enum Pattern {
    /// The expression that a selector directive gives.
    Match(String),
    /// The number of a fieldless variant.
    Value(i128),
    /// Anything: the arm of last resort.
    Wildcard,
}

/// The model of a [`Pattern`].
pub enum PatternModel {
    Match(Seq<char>),
    Value(int),
    Wildcard,
}

impl View for Pattern {
    type V = PatternModel;

    open spec fn view(&self) -> PatternModel {
        match self {
            Pattern::Match(e) => PatternModel::Match(e@),
            Pattern::Value(v) => PatternModel::Value(*v as int),
            Pattern::Wildcard => PatternModel::Wildcard,
        }
    }
}

impl Clone for Pattern {
    fn clone(&self) -> (r: Self)
        ensures
            r@ == self@,
    {
        match self {
            Pattern::Match(e) => Pattern::Match(e.clone()),
            Pattern::Value(v) => Pattern::Value(*v),
            Pattern::Wildcard => Pattern::Wildcard,
        }
    }
}

/// One arm of a union's dispatch: a pattern, and the plan of the variant it selects.
#[derive(Clone, Debug, PartialEq, Eq)]
pub struct Arm {
    pub pattern: Pattern,
    pub record: RecordPlan,
}

/// The model of an [`Arm`].
pub struct ArmModel {
    pub pattern: PatternModel,
    pub record: RecordPlanModel,
}

impl View for Arm {
    type V = ArmModel;

    open spec fn view(&self) -> ArmModel {
        ArmModel { pattern: self.pattern@, record: self.record@ }
    }
}

/// The views of a list of arms.
pub open spec fn arm_models(list: Seq<Arm>) -> Seq<ArmModel> {
    list.map_values(|a: Arm| a@)
}

/// The type of the value that selects a union's arm.
#[derive(Clone, Debug, PartialEq, Eq)]
pub enum Discriminant {
    /// The type the union declares, handed to the decoder from outside.
    Declared(String),
    /// A big-endian integer, decoded from the input ahead of the variant.
    Primitive(Primitive),
}

/// The model of a [`Discriminant`].
pub enum DiscriminantModel {
    Declared(Seq<char>),
    Primitive(Primitive),
}

impl View for Discriminant {
    type V = DiscriminantModel;

    open spec fn view(&self) -> DiscriminantModel {
        match self {
            Discriminant::Declared(t) => DiscriminantModel::Declared(t@),
            Discriminant::Primitive(p) => DiscriminantModel::Primitive(*p),
        }
    }
}

/// The plan of a union: the type of its discriminant and the arms in the order in which
/// they are tried.
#[derive(Clone, Debug, PartialEq, Eq)]
pub struct UnionPlan {
    pub name: String,
    pub discriminant: Discriminant,
    pub arms: Vec<Arm>,
    /// How decoding fails where no arm matches; `None` where the last arm is the wildcard.
    pub unmatched: Option<DecodeError>,
}

/// The model of a [`UnionPlan`].
pub struct UnionPlanModel {
    pub name: Seq<char>,
    pub discriminant: DiscriminantModel,
    pub arms: Seq<ArmModel>,
    pub unmatched: Option<DecodeError>,
}

impl View for UnionPlan {
    type V = UnionPlanModel;

    open spec fn view(&self) -> UnionPlanModel {
        UnionPlanModel {
            name: self.name@,
            discriminant: self.discriminant@,
            arms: arm_models(self.arms@),
            unmatched: self.unmatched,
        }
    }
}

/// Whether the arm is one of a fieldless union: its pattern is a number that the integer
/// type holds, and it decodes no field.
pub open spec fn numbered(arm: ArmModel, p: Primitive) -> bool {
    match arm.pattern {
        PatternModel::Value(v) => fits(p, v) && arm.record.steps.len() == 0,
        _ => false,
    }
}

impl UnionPlanModel {
    /// Whether dispatch can follow the plan. An arm that catches all is the last arm, and
    /// decoding fails on a discriminant that no arm matches exactly where no arm catches
    /// all. Where the discriminant is decoded from the input, the pattern of each arm is a
    /// number that the discriminant's type holds, and no arm decodes a field or catches
    /// all; where it is handed in, no pattern is a number.
    pub open spec fn well_formed(self) -> bool {
        &&& forall|i: int|
            0 <= i < self.arms.len() - 1 ==> !((#[trigger] self.arms[i]).pattern is Wildcard)
        &&& self.unmatched is None <==> self.arms.len() > 0 && self.arms.last().pattern
            is Wildcard
        &&& self.unmatched is Some ==> self.unmatched == Some(DecodeError::UnmatchedSelector)
        &&& match self.discriminant {
            DiscriminantModel::Primitive(p) => forall|i: int|
                0 <= i < self.arms.len() ==> numbered(#[trigger] self.arms[i], p),
            DiscriminantModel::Declared(_) => forall|i: int|
                0 <= i < self.arms.len() ==> !((#[trigger] self.arms[i]).pattern is Value),
        }
    }
}

/// The plan of a schema.
#[derive(Clone, Debug, PartialEq, Eq)]
pub enum Plan {
    Record(RecordPlan),
    Union(UnionPlan),
}

/// The model of a [`Plan`].
pub enum PlanModel {
    Record(RecordPlanModel),
    Union(UnionPlanModel),
}

impl View for Plan {
    type V = PlanModel;

    open spec fn view(&self) -> PlanModel {
        match self {
            Plan::Record(r) => PlanModel::Record(r@),
            Plan::Union(u) => PlanModel::Union(u@),
        }
    }
}
} // verus!
