//! Inference: the step by which a field is decoded when nothing but its type is known.

use vstd::prelude::*;
use crate::directive::primitive_of;
use crate::model::option_model;
use crate::plan::{CountModel, CountPolicy, Step, StepModel};
use crate::registry::Registry;
use crate::schema::{Primitive, TypeDescriptor, TypeModel};
use crate::text::same_text;

verus! {

/// The step that a declared type is decoded by, by default: an integer as a big-endian
/// primitive, an optional value by trying its inner step, a sequence by repeating its inner
/// step as long as it succeeds, and any other type by that type's own plan.
pub open spec fn inferred(ty: TypeModel) -> StepModel
    decreases ty,
{
    match ty {
        TypeModel::Primitive(p) => StepModel::DecodePrimitive(p),
        TypeModel::Optional(inner) => StepModel::DecodeOptional(Box::new(inferred(*inner))),
        TypeModel::Sequence(inner) => StepModel::DecodeSequence(
            Box::new(inferred(*inner)),
            CountModel::Unbounded,
        ),
        TypeModel::Named(id) => StepModel::DecodeNested(id),
    }
}

/// The named type that decoding a value of the declared type comes down to, if it is not
/// an integer.
pub open spec fn nested_name(ty: TypeModel) -> Option<Seq<char>>
    decreases ty,
{
    match ty {
        TypeModel::Primitive(_) => None,
        TypeModel::Optional(inner) => nested_name(*inner),
        TypeModel::Sequence(inner) => nested_name(*inner),
        TypeModel::Named(id) => Some(id),
    }
}

/// Whether the declared type comes down to a named type that is not among `known`.
pub open spec fn dangling(ty: TypeModel, known: Set<Seq<char>>) -> bool {
    match nested_name(ty) {
        Some(id) => !known.contains(id),
        None => false,
    }
}

/// The declared type that is written as `name`, with `argument` as its type argument where
/// it has one: an integer type by its name, `Option` and `Vec` of their argument, and
/// anything else as a named type.
pub open spec fn described(name: Seq<char>, argument: Option<TypeModel>) -> TypeModel {
    match primitive_of(name) {
        Some(p) => TypeModel::Primitive(p),
        None => match argument {
            Some(inner) => if name == "Option"@ {
                TypeModel::Optional(Box::new(inner))
            } else if name == "Vec"@ {
                TypeModel::Sequence(Box::new(inner))
            } else {
                TypeModel::Named(name)
            },
            None => TypeModel::Named(name),
        },
    }
}

impl TypeDescriptor {
    /// The declared type that is written as `name`, with `argument` as its type argument
    /// where it has one.
    pub fn describe(name: &str, argument: Option<TypeDescriptor>) -> (r: TypeDescriptor)
        ensures
            r@ == described(
                name@,
                match argument {
                    Some(a) => Some(a@),
                    None => None,
                },
            ),
    {
        match Primitive::from_name(name) {
            Some(p) => TypeDescriptor::Primitive(p),
            None => match argument {
                Some(inner) => if same_text(name, "Option") {
                    TypeDescriptor::Optional(Box::new(inner))
                } else if same_text(name, "Vec") {
                    TypeDescriptor::Sequence(Box::new(inner))
                } else {
                    TypeDescriptor::Named(name.to_owned())
                },
                None => TypeDescriptor::Named(name.to_owned()),
            },
        }
    }

    /// The named type that decoding a value of the type comes down to, if it is not an
    /// integer.
    pub fn nested(&self) -> (r: Option<&String>)
        ensures
            option_model(r) == nested_name(self@),
        decreases self,
    {
        match self {
            TypeDescriptor::Primitive(_) => None,
            TypeDescriptor::Optional(inner) => inner.nested(),
            TypeDescriptor::Sequence(inner) => inner.nested(),
            TypeDescriptor::Named(id) => Some(id),
        }
    }

    /// Whether the type comes down to a named type that `registry` does not hold.
    pub fn is_dangling(&self, registry: &Registry) -> (r: bool)
        ensures
            r == dangling(self@, registry@.dom()),
    {
        match self.nested() {
            Some(id) => !registry.contains(id.as_str()),
            None => false,
        }
    }
}

/// Infers the default step of a declared type.
pub fn infer(ty: &TypeDescriptor) -> (r: Step)
    ensures
        r@ == inferred(ty@),
    decreases ty,
{
    match ty {
        TypeDescriptor::Primitive(p) => Step::DecodePrimitive(*p),
        TypeDescriptor::Optional(inner) => Step::DecodeOptional(Box::new(infer(inner))),
        TypeDescriptor::Sequence(inner) => Step::DecodeSequence(
            Box::new(infer(inner)),
            CountPolicy::Unbounded,
        ),
        TypeDescriptor::Named(id) => Step::DecodeNested(id.clone()),
    }
}
} // verus!
