//! What a step means: what the decoder that is made from it does to its input.
//!
//! Nothing here runs. The definitions say what a plan asks of the one who turns it into a
//! decoder, precisely enough for laws about plans to be proved.

use vstd::prelude::*;
use crate::directive::DirectiveSetModel;
use crate::dispatch::{
    arm_at, catches_all, declared_arms, lemma_one_wildcard, lemma_planned_union,
    lemma_relocation_keeps_arms, lemma_variants_planned, lemma_wild_arms, pattern_at, relocated,
    settled, union_plan, wild,
};
use crate::error::{ConfigError, DecodeError, RejectionModel};
use crate::field::{base_step, planned};
use crate::infer::inferred;
use crate::plan::{ArmModel, CountModel, PatternModel, RecordPlanModel, StepModel};
use crate::record::record_plan;
use crate::schema::{Primitive, TypeModel, UnionModel, VariantModel};
use crate::search::{first_true, lemma_first_true, lemma_first_true_at};

verus! {

/// What a step leaves to its surroundings when it runs: how the expressions it carries
/// evaluate, and what the decoders do that it only names.
pub struct Host {
    /// Whether a guard holds.
    pub holds: spec_fn(Seq<char>) -> bool,
    /// Whether a predicate accepts the value that was decoded from the given bytes.
    pub accepts: spec_fn(Seq<char>, Seq<u8>) -> bool,
    /// The number that a count gives.
    pub counts: spec_fn(Seq<char>) -> nat,
    /// How many bytes of the input the decoder of a named type consumes; `None` where it
    /// fails.
    pub nested: spec_fn(Seq<char>, Seq<u8>) -> Option<nat>,
    /// How many bytes of the input a decoder given as an expression consumes; `None` where
    /// it fails.
    pub explicit: spec_fn(Seq<char>, Seq<u8>) -> Option<nat>,
}

/// What a step that succeeds has done.
pub struct Decoded {
    /// How many bytes it took from the front of the input.
    pub consumed: nat,
    /// Whether the value is an absent one.
    pub absent: bool,
}

/// One run of a step: how it ended, and the predicates that were evaluated on the way.
pub struct Run {
    pub result: Result<Decoded, DecodeError>,
    pub checked: Seq<Seq<char>>,
}

/// The run that consumes `n` bytes and evaluates no predicate.
pub open spec fn taken(n: nat) -> Run {
    Run { result: Ok(Decoded { consumed: n, absent: false }), checked: Seq::empty() }
}

/// The run that yields an absent value: it consumes nothing.
pub open spec fn absent(checked: Seq<Seq<char>>) -> Run {
    Run { result: Ok(Decoded { consumed: 0, absent: true }), checked }
}

/// The run that fails for want of input that holds the value.
pub open spec fn malformed(checked: Seq<Seq<char>>) -> Run {
    Run { result: Err(DecodeError::Malformed), checked }
}

/// What a decoder that is only named does, where it says that it consumes `n` bytes.
pub open spec fn deferred(n: Option<nat>, input: Seq<u8>) -> Run {
    match n {
        Some(n) => if n <= input.len() {
            taken(n)
        } else {
            malformed(Seq::empty())
        },
        None => malformed(Seq::empty()),
    }
}

/// The number of bytes that an integer of the type takes.
pub open spec fn size_of(p: Primitive) -> nat {
    p.width.spec_bits() / 8
}

/// What running `step` on `input` comes to.
pub open spec fn run(step: StepModel, host: Host, input: Seq<u8>) -> Run
    decreases step, 0nat, 0nat,
{
    match step {
        StepModel::DecodePrimitive(p) => if size_of(p) <= input.len() {
            taken(size_of(p))
        } else {
            malformed(Seq::empty())
        },
        StepModel::DecodeNested(id) => deferred((host.nested)(id, input), input),
        StepModel::DecodeExplicit(e) => deferred((host.explicit)(e, input), input),
        StepModel::DecodeOptional(inner) => {
            let tried = run(*inner, host, input);
            match tried.result {
                Ok(d) => tried,
                Err(_) => absent(tried.checked),
            }
        },
        StepModel::DecodeSequence(inner, CountModel::Unbounded) => run_while(*inner, host, input),
        StepModel::DecodeSequence(inner, CountModel::Exact(c)) => run_times(
            *inner,
            host,
            input,
            (host.counts)(c),
        ),
        StepModel::VerifyWrapper { predicate, inner } => {
            let decoded = run(*inner, host, input);
            match decoded.result {
                Err(_) => decoded,
                Ok(d) => Run {
                    result: if (host.accepts)(predicate, input.take(d.consumed as int)) {
                        Ok(d)
                    } else {
                        Err(DecodeError::VerificationFailed)
                    },
                    checked: decoded.checked.push(predicate),
                },
            }
        },
        StepModel::CondWrapper { guard, inner } => if (host.holds)(guard) {
            run(*inner, host, input)
        } else {
            absent(Seq::empty())
        },
    }
}

/// What repeating `inner` on `input` comes to, for as long as it decodes: the attempt that
/// fails ends the run and consumes nothing. An attempt that succeeds on no input at all
/// would be repeated without end, and is a failure.
pub open spec fn run_while(inner: StepModel, host: Host, input: Seq<u8>) -> Run
    decreases inner, 1nat, input.len(),
{
    let first = run(inner, host, input);
    match first.result {
        Err(_) => Run {
            result: Ok(Decoded { consumed: 0, absent: false }),
            checked: first.checked,
        },
        Ok(d) => if d.consumed == 0 || d.consumed > input.len() {
            malformed(first.checked)
        } else {
            let rest = run_while(inner, host, input.skip(d.consumed as int));
            following(first.checked, d.consumed, rest)
        },
    }
}

/// What repeating `inner` on `input` `n` times comes to.
pub open spec fn run_times(inner: StepModel, host: Host, input: Seq<u8>, n: nat) -> Run
    decreases inner, 1nat, n,
{
    if n == 0 {
        taken(0)
    } else {
        let first = run(inner, host, input);
        match first.result {
            Err(_) => first,
            Ok(d) => if d.consumed > input.len() {
                malformed(first.checked)
            } else {
                let rest = run_times(inner, host, input.skip(d.consumed as int), (n - 1) as nat);
                following(first.checked, d.consumed, rest)
            },
        }
    }
}

/// The run `rest`, taken up after `consumed` bytes were consumed and `checked` evaluated.
pub open spec fn following(checked: Seq<Seq<char>>, consumed: nat, rest: Run) -> Run {
    Run {
        result: match rest.result {
            Ok(d) => Ok(Decoded { consumed: consumed + d.consumed, absent: false }),
            Err(e) => Err(e),
        },
        checked: checked + rest.checked,
    }
}

/// Trying a step never fails: where the step fails, the value is absent and nothing is
/// consumed; where it succeeds, the value is what the step decoded.
pub proof fn lemma_trying_never_fails(inner: StepModel, host: Host, input: Seq<u8>)
    ensures
        run(StepModel::DecodeOptional(Box::new(inner)), host, input).result is Ok,
        run(inner, host, input).result is Err ==> run(
            StepModel::DecodeOptional(Box::new(inner)),
            host,
            input,
        ).result == Ok::<Decoded, DecodeError>(Decoded { consumed: 0, absent: true }),
        run(inner, host, input).result is Ok ==> run(
            StepModel::DecodeOptional(Box::new(inner)),
            host,
            input,
        ) == run(inner, host, input),
{
}

/// Decoding an optional field that has no decoder of its own and no predicate never
/// fails, whatever the input: where the inner value does not decode, or where the guard is
/// false, the field is absent and nothing is consumed.
pub proof fn lemma_optional_field_never_fails(
    inner: TypeModel,
    set: DirectiveSetModel,
    known: Set<Seq<char>>,
    step: StepModel,
    host: Host,
    input: Seq<u8>,
)
    requires
        set.decoder is None,
        set.verify is None,
        planned(TypeModel::Optional(Box::new(inner)), set, known) == Ok::<StepModel, ConfigError>(
            step,
        ),
    ensures
        run(step, host, input).result is Ok,
        run(inferred(inner), host, input).result is Err ==> run(step, host, input).result == Ok::<
            Decoded,
            DecodeError,
        >(Decoded { consumed: 0, absent: true }),
        set.cond matches Some(g) && !(host.holds)(g.text) ==> run(step, host, input) == absent(
            Seq::empty(),
        ),
{
    lemma_trying_never_fails(inferred(inner), host, input);
}

/// Under a guard, a predicate is evaluated only on a value that was decoded. Where the
/// guard is false, nothing runs: the value is absent, nothing is consumed and no predicate
/// is evaluated. Where the guard holds and the step within fails, the run fails with what
/// the step had evaluated, and the predicate is not evaluated. Where the step succeeds, the
/// predicate is evaluated after it, once, and decides.
pub proof fn lemma_guard_comes_first(
    guard: Seq<char>,
    predicate: Seq<char>,
    base: StepModel,
    host: Host,
    input: Seq<u8>,
)
    ensures
        ({
            let step = StepModel::CondWrapper {
                guard,
                inner: Box::new(StepModel::VerifyWrapper { predicate, inner: Box::new(base) }),
            };
            let within = run(base, host, input);
            &&& !(host.holds)(guard) ==> run(step, host, input) == absent(Seq::empty())
            &&& (host.holds)(guard) && within.result is Err ==> run(step, host, input) == within
            &&& (host.holds)(guard) && within.result is Ok ==> run(step, host, input).checked
                == within.checked.push(predicate) && (run(step, host, input).result is Ok <==> (
            host.accepts)(predicate, input.take(within.result->Ok_0.consumed as int)))
        }),
{
    let checked = StepModel::VerifyWrapper { predicate, inner: Box::new(base) };
    let step = StepModel::CondWrapper { guard, inner: Box::new(checked) };
    assert(run(step, host, input) == if (host.holds)(guard) {
        run(checked, host, input)
    } else {
        absent(Seq::empty())
    });
}

/// The step of a field with a guard and a predicate evaluates the predicate only where the
/// guard holds and the value was decoded.
pub proof fn lemma_predicate_needs_a_value(
    ty: TypeModel,
    set: DirectiveSetModel,
    known: Set<Seq<char>>,
    step: StepModel,
    host: Host,
    input: Seq<u8>,
)
    requires
        set.cond is Some,
        set.verify is Some,
        planned(ty, set, known) == Ok::<StepModel, ConfigError>(step),
    ensures
        !(host.holds)(set.cond->0.text) ==> run(step, host, input) == absent(Seq::empty()),
        (host.holds)(set.cond->0.text) && run(base_step(ty, set), host, input).result is Err
            ==> run(step, host, input) == run(base_step(ty, set), host, input),
        (host.holds)(set.cond->0.text) && run(base_step(ty, set), host, input).result is Ok
            ==> run(step, host, input).checked == run(
            base_step(ty, set),
            host,
            input,
        ).checked.push(set.verify->0.text),
{
    lemma_guard_comes_first(
        set.cond->0.text,
        set.verify->0.text,
        base_step(ty, set),
        host,
        input,
    );
}

/// Whether an arm with `pattern` is taken, where `matches` tells which patterns the
/// discriminant matches: the wildcard admits every discriminant.
pub open spec fn admits(pattern: PatternModel, matches: spec_fn(PatternModel) -> bool) -> bool {
    pattern is Wildcard || matches(pattern)
}

/// For each arm, whether it admits the discriminant.
pub open spec fn admitting(arms: Seq<ArmModel>, matches: spec_fn(PatternModel) -> bool) -> Seq<
    bool,
> {
    arms.map_values(|a: ArmModel| admits(a.pattern, matches))
}

/// The arm that decoding takes: the first one, in the order of the plan, that admits the
/// discriminant. Where there is none, decoding fails.
pub open spec fn arm_taken(arms: Seq<ArmModel>, matches: spec_fn(PatternModel) -> bool) -> Option<
    int,
> {
    first_true(admitting(arms, matches))
}

/// For each variant, whether its own pattern, which is not the wildcard, matches the
/// discriminant.
pub open spec fn matching(
    variants: Seq<VariantModel>,
    matches: spec_fn(PatternModel) -> bool,
) -> Seq<bool> {
    Seq::new(
        variants.len(),
        |i: int| !(pattern_at(variants, i) is Wildcard) && matches(pattern_at(variants, i)),
    )
}

/// For each arm, whether its pattern is not the wildcard and matches the discriminant.
pub open spec fn hitting(arms: Seq<ArmModel>, matches: spec_fn(PatternModel) -> bool) -> Seq<
    bool,
> {
    arms.map_values(|a: ArmModel| !(a.pattern is Wildcard) && matches(a.pattern))
}

/// Among arms none of which catches all, the arm taken is the first whose pattern matches.
pub proof fn lemma_taken_without_wildcard(
    arms: Seq<ArmModel>,
    matches: spec_fn(PatternModel) -> bool,
)
    requires
        first_true(catches_all(arms)) is None,
    ensures
        relocated(arms) == arms,
        arm_taken(arms, matches) == first_true(hitting(arms, matches)),
{
    lemma_first_true(catches_all(arms));
    assert(admitting(arms, matches) =~= hitting(arms, matches)) by {
        assert forall|i: int| 0 <= i < arms.len() implies admitting(arms, matches)[i] == hitting(
            arms,
            matches,
        )[i] by {
            assert(!catches_all(arms)[i]);
        }
    }
}

/// Among arms of which `w` alone catches all, and none of which matches otherwise, the
/// arm taken once `w` is moved behind the others is the last.
pub proof fn lemma_taken_is_wildcard(
    arms: Seq<ArmModel>,
    matches: spec_fn(PatternModel) -> bool,
    w: int,
)
    requires
        first_true(catches_all(arms)) == Some(w),
        first_true(hitting(arms, matches)) is None,
        forall|a: int, b: int|
            0 <= a < arms.len() && 0 <= b < arms.len() && catches_all(arms)[a] && catches_all(
                arms,
            )[b] ==> a == b,
    ensures
        arm_taken(relocated(arms), matches) == Some(arms.len() - 1),
        relocated(arms).last() == arms[w],
{
    let moved = relocated(arms);
    let open = admitting(moved, matches);
    lemma_first_true(catches_all(arms));
    lemma_first_true(hitting(arms, matches));
    lemma_relocation_keeps_arms(arms);
    assert(catches_all(arms)[w]);
    assert(open[arms.len() - 1]);
    assert forall|i: int| 0 <= i < arms.len() - 1 implies !open[i] by {
        let k = if i < w {
            i
        } else {
            i + 1
        };
        assert(moved[i] == arms[k]);
        assert(!hitting(arms, matches)[k]);
        assert(!catches_all(arms)[k]);
    }
    lemma_first_true_at(open, arms.len() - 1);
}

/// Among arms of which one at most catches all, and of which arm `i` is the first whose
/// own pattern matches, the arm taken once the arm that catches all is moved behind the
/// others is arm `i`.
pub proof fn lemma_taken_is_first_hit(
    arms: Seq<ArmModel>,
    matches: spec_fn(PatternModel) -> bool,
    i: int,
)
    requires
        first_true(hitting(arms, matches)) == Some(i),
        forall|a: int, b: int|
            0 <= a < arms.len() && 0 <= b < arms.len() && catches_all(arms)[a] && catches_all(
                arms,
            )[b] ==> a == b,
    ensures
        arm_taken(relocated(arms), matches) is Some,
        0 <= arm_taken(relocated(arms), matches)->0 < arms.len(),
        relocated(arms)[arm_taken(relocated(arms), matches)->0] == arms[i],
{
    lemma_first_true(hitting(arms, matches));
    lemma_first_true(catches_all(arms));
    match first_true(catches_all(arms)) {
        None => {
            lemma_taken_without_wildcard(arms, matches);
        },
        Some(w) => {
            let moved = relocated(arms);
            let open = admitting(moved, matches);
            lemma_relocation_keeps_arms(arms);
            assert(catches_all(arms)[w]);
            assert(hitting(arms, matches)[i]);
            assert(i != w);
            let j = if i < w {
                i
            } else {
                i - 1
            };
            assert(moved[j] == arms[i]);
            assert(open[j]);
            assert forall|x: int| 0 <= x < j implies !open[x] by {
                let k = if x < w {
                    x
                } else {
                    x + 1
                };
                assert(moved[x] == arms[k]);
                assert(!hitting(arms, matches)[k]);
                assert(!catches_all(arms)[k]);
            }
            lemma_first_true_at(open, j);
        },
    }
}

/// Patterns are tried before the wildcard falls back. Decoding by the plan of a union
/// takes the arm of the first variant, in the order of declaration, whose own pattern
/// matches the discriminant; where none matches, the arm of the variant that the wildcard
/// selects; and where there is no such variant either, no arm at all.
pub proof fn lemma_patterns_before_wildcard(
    u: UnionModel,
    known: Set<Seq<char>>,
    matches: spec_fn(PatternModel) -> bool,
)
    requires
        union_plan(u, known) is Ok,
    ensures
        ({
            let plan = union_plan(u, known)->Ok_0;
            let taken = arm_taken(plan.arms, matches);
            &&& first_true(matching(u.variants, matches)) matches Some(i) ==> taken is Some
                && plan.arms[taken->0].pattern == pattern_at(u.variants, i) && record_plan(
                u.variants[i].record,
                known,
            ) == Ok::<RecordPlanModel, RejectionModel>(plan.arms[taken->0].record)
            &&& first_true(matching(u.variants, matches)) is None ==> match first_true(
                wild(u.variants),
            ) {
                Some(w) => taken == Some(plan.arms.len() - 1) && record_plan(
                    u.variants[w].record,
                    known,
                ) == Ok::<RecordPlanModel, RejectionModel>(plan.arms.last().record),
                None => taken is None && plan.unmatched == Some(DecodeError::UnmatchedSelector),
            }
        }),
{
    let variants = u.variants;
    let arms = declared_arms(variants, known);
    lemma_planned_union(u, known);
    lemma_variants_planned(u, known);
    lemma_wild_arms(variants, known);
    lemma_one_wildcard(variants, settled(u));
    assert(hitting(arms, matches) =~= matching(variants, matches));
    lemma_first_true(matching(variants, matches));
    lemma_first_true(wild(variants));
    match first_true(matching(variants, matches)) {
        Some(i) => {
            lemma_taken_is_first_hit(arms, matches, i);
            assert(arms[i] == arm_at(variants, i, known));
        },
        None => match first_true(wild(variants)) {
            Some(w) => {
                lemma_taken_is_wildcard(arms, matches, w);
                assert(arms[w] == arm_at(variants, w, known));
            },
            None => {
                lemma_taken_without_wildcard(arms, matches);
            },
        },
    }
}
} // verus!
