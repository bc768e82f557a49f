//! Synthesis of decoding plans from declarative type descriptions.
//!
//! A [`Schema`](schema::Schema) describes a record or a union and the directives on its
//! fields and variants. [`nom`] turns it into a [`Plan`](plan::Plan): the steps that decode
//! a value of the type from a byte buffer, in the order in which they run. Nothing is
//! decoded here; the plan is what an emitter turns into a decoder.

use vstd::prelude::*;
use crate::error::{Rejection, RejectionModel};
use crate::dispatch::union_plan;
use crate::model::result_model;
use crate::plan::{Plan, PlanModel};
use crate::record::record_plan;
use crate::registry::Registry;
use crate::schema::{Schema, SchemaModel};

pub mod directive;
pub mod dispatch;
pub mod error;
pub mod field;
pub mod infer;
pub mod meaning;
pub mod model;
pub mod plan;
pub mod record;
pub mod registry;
pub mod schema;
pub mod search;
pub mod text;
pub mod token;

verus! {

/// The plan of a schema, where `known` are the names of the registered types.
pub open spec fn synthesized(schema: SchemaModel, known: Set<Seq<char>>) -> Result<
    PlanModel,
    RejectionModel,
> {
    match schema {
        SchemaModel::Record(r) => match record_plan(r, known) {
            Ok(plan) => Ok(PlanModel::Record(plan)),
            Err(e) => Err(e),
        },
        SchemaModel::Union(u) => match union_plan(u, known) {
            Ok(plan) => Ok(PlanModel::Union(plan)),
            Err(e) => Err(e),
        },
    }
}

/// Synthesizes the plan by which a value of the described type is decoded.
///
/// The registry is only asked which types it holds. The schema is either planned in full
/// or refused, with the first thing that is wrong with it and the name of the field, the
/// variant or the type that it is wrong with.
pub fn nom(schema: &Schema, registry: &Registry) -> (r: Result<Plan, Rejection>)
    ensures
        result_model(r) == synthesized(schema@, registry@.dom()),
        r matches Ok(Plan::Union(plan)) ==> plan@.well_formed(),
{
    match schema {
        Schema::Record(record) => match record.build(registry) {
            Ok(plan) => Ok(Plan::Record(plan)),
            Err(e) => Err(e),
        },
        Schema::Union(union) => match union.build(registry) {
            Ok(plan) => Ok(Plan::Union(plan)),
            Err(e) => Err(e),
        },
    }
}

/// Synthesis is a function of the schema and of the names that the registry holds: run
/// twice on the same schema and registry, it returns the same plan or the same refusal.
pub proof fn lemma_synthesis_repeats(
    schema: Schema,
    registry: Registry,
    first: Result<Plan, Rejection>,
    second: Result<Plan, Rejection>,
)
    requires
        result_model(first) == synthesized(schema@, registry@.dom()),
        result_model(second) == synthesized(schema@, registry@.dom()),
    ensures
        result_model(first) == result_model(second),
{
}
} // verus!
