use nom_derive::directive::{
    first_expression, first_representation, first_value, has_duplicate, has_unsupported, resolve,
    DirectiveKind, DirectiveSet,
};
use nom_derive::error::{ConfigError, Rejection};
use nom_derive::field::{build_base, wrap};
use nom_derive::infer::infer;
use nom_derive::nom;
use nom_derive::plan::{Construction, CountPolicy, NamedStep, Plan, RecordPlan, Step};
use nom_derive::registry::Registry;
use nom_derive::schema::{
    Expression, Field, Primitive, RawAttribute, RawValue, Record, Schema, TypeDescriptor, Width,
};

fn expr(text: &str) -> Expression {
    let stream: proc_macro2::TokenStream = text.parse().expect("the text lexes");
    Expression::parse(text, stream)
}

fn attr(name: &str, value: &str) -> RawAttribute {
    RawAttribute { name: name.to_string(), value: RawValue::Str(expr(value)) }
}

fn integer(width: Width, signed: bool) -> TypeDescriptor {
    TypeDescriptor::Primitive(Primitive { width, signed })
}

fn optional(inner: TypeDescriptor) -> TypeDescriptor {
    TypeDescriptor::Optional(Box::new(inner))
}

fn sequence(inner: TypeDescriptor) -> TypeDescriptor {
    TypeDescriptor::Sequence(Box::new(inner))
}

fn named(id: &str) -> TypeDescriptor {
    TypeDescriptor::Named(id.to_string())
}

fn field(name: &str, ty: TypeDescriptor, attrs: Vec<RawAttribute>) -> Field {
    Field { name: name.to_string(), ty, attrs }
}

fn record(name: &str, fields: Vec<Field>) -> Record {
    Record { name: name.to_string(), fields, positional: false }
}

fn prim(width: Width, signed: bool) -> Step {
    Step::DecodePrimitive(Primitive { width, signed })
}

fn step(name: &str, step: Step) -> NamedStep {
    NamedStep { name: name.to_string(), step }
}

fn refused(error: ConfigError, subject: &str) -> Rejection {
    Rejection { error, subject: subject.to_string() }
}

fn steps_of(record: Record) -> Vec<NamedStep> {
    record.build(&Registry::new()).expect("the record is planned").steps
}

fn only_step(ty: TypeDescriptor, attrs: Vec<RawAttribute>) -> Step {
    let earlier = field("n", integer(Width::W8, false), vec![]);
    let mut steps = steps_of(record("S", vec![earlier, field("x", ty, attrs)]));
    steps.pop().expect("two steps").step
}

fn refusal_of(record: Record) -> Rejection {
    record.build(&Registry::new()).expect_err("the record is refused")
}

#[test]
fn plain_record_keeps_declaration_order() {
    let s = record(
        "S",
        vec![
            field("a", integer(Width::W32, false), vec![]),
            field("b", integer(Width::W16, false), vec![]),
            field("c", integer(Width::W16, true), vec![]),
        ],
    );
    let plan = s.build(&Registry::new()).unwrap();
    assert_eq!(
        plan,
        RecordPlan {
            name: "S".to_string(),
            steps: vec![
                step("a", prim(Width::W32, false)),
                step("b", prim(Width::W16, false)),
                step("c", prim(Width::W16, true)),
            ],
            construction: Construction::Named,
        }
    );
}

#[test]
fn empty_record_has_no_steps() {
    let plan = record("Unit", vec![]).build(&Registry::new()).unwrap();
    assert_eq!(plan.steps, vec![]);
    assert_eq!(plan.name, "Unit");
}

#[test]
fn positional_record_is_built_by_position() {
    let s = Record {
        name: "S".to_string(),
        fields: vec![field("_0", integer(Width::W32, false), vec![])],
        positional: true,
    };
    let plan = s.build(&Registry::new()).unwrap();
    assert_eq!(plan.construction, Construction::Positional);
    assert_eq!(plan.steps, vec![step("_0", prim(Width::W32, false))]);
}

#[test]
fn attributes_that_are_no_directives_are_passed_over() {
    let doc = RawAttribute { name: "doc".to_string(), value: RawValue::Unsupported };
    let allow = RawAttribute { name: "allow".to_string(), value: RawValue::Word("unused".to_string()) };
    let got = only_step(integer(Width::W64, false), vec![doc.clone(), allow, doc]);
    assert_eq!(got, prim(Width::W64, false));
}

#[test]
fn inference_follows_the_type() {
    assert_eq!(infer(&integer(Width::W8, true)), prim(Width::W8, true));
    assert_eq!(
        infer(&optional(integer(Width::W32, false))),
        Step::DecodeOptional(Box::new(prim(Width::W32, false)))
    );
    assert_eq!(
        infer(&sequence(integer(Width::W16, false))),
        Step::DecodeSequence(Box::new(prim(Width::W16, false)), CountPolicy::Unbounded)
    );
    assert_eq!(infer(&named("S2")), Step::DecodeNested("S2".to_string()));
    assert_eq!(
        infer(&sequence(optional(named("Item")))),
        Step::DecodeSequence(
            Box::new(Step::DecodeOptional(Box::new(Step::DecodeNested("Item".to_string())))),
            CountPolicy::Unbounded
        )
    );
}

#[test]
fn types_are_described_by_their_names() {
    assert_eq!(TypeDescriptor::describe("u8", None), integer(Width::W8, false));
    assert_eq!(TypeDescriptor::describe("u16", None), integer(Width::W16, false));
    assert_eq!(TypeDescriptor::describe("u32", None), integer(Width::W32, false));
    assert_eq!(TypeDescriptor::describe("u64", None), integer(Width::W64, false));
    assert_eq!(TypeDescriptor::describe("i8", None), integer(Width::W8, true));
    assert_eq!(TypeDescriptor::describe("i16", None), integer(Width::W16, true));
    assert_eq!(TypeDescriptor::describe("i32", None), integer(Width::W32, true));
    assert_eq!(TypeDescriptor::describe("i64", None), integer(Width::W64, true));
    assert_eq!(
        TypeDescriptor::describe("Option", Some(integer(Width::W32, false))),
        optional(integer(Width::W32, false))
    );
    assert_eq!(
        TypeDescriptor::describe("Vec", Some(named("S2"))),
        sequence(named("S2"))
    );
    assert_eq!(TypeDescriptor::describe("S2", None), named("S2"));
    assert_eq!(TypeDescriptor::describe("Option", None), named("Option"));
    assert_eq!(TypeDescriptor::describe("Wrapper", Some(named("T"))), named("Wrapper"));
    assert_eq!(TypeDescriptor::describe("u128", None), named("u128"));
}

#[test]
fn integer_widths_in_bits() {
    assert_eq!(Width::W8.bits(), 8);
    assert_eq!(Width::W16.bits(), 16);
    assert_eq!(Width::W32.bits(), 32);
    assert_eq!(Width::W64.bits(), 64);
}

#[test]
fn optional_field_without_guard_is_tried() {
    let got = only_step(optional(integer(Width::W32, false)), vec![]);
    assert_eq!(got, Step::DecodeOptional(Box::new(prim(Width::W32, false))));
}

#[test]
fn optional_field_with_predicate_is_tried_within_it() {
    let got = only_step(optional(integer(Width::W32, false)), vec![attr("Verify", "x.is_some()")]);
    assert_eq!(
        got,
        Step::VerifyWrapper {
            predicate: "x.is_some()".to_string(),
            inner: Box::new(Step::DecodeOptional(Box::new(prim(Width::W32, false)))),
        }
    );
}

#[test]
fn sequence_with_count_is_exact() {
    let got = only_step(sequence(integer(Width::W16, false)), vec![attr("Count", "n")]);
    assert_eq!(
        got,
        Step::DecodeSequence(Box::new(prim(Width::W16, false)), CountPolicy::Exact("n".to_string()))
    );
}

#[test]
fn sequence_without_count_is_unbounded() {
    let got = only_step(sequence(integer(Width::W16, false)), vec![]);
    assert_eq!(
        got,
        Step::DecodeSequence(Box::new(prim(Width::W16, false)), CountPolicy::Unbounded)
    );
}

#[test]
fn count_on_another_type_changes_nothing() {
    let got = only_step(integer(Width::W16, false), vec![attr("Count", "n")]);
    assert_eq!(got, prim(Width::W16, false));
}

#[test]
fn explicit_decoder_is_taken_verbatim() {
    let got = only_step(integer(Width::W16, false), vec![attr("Parse", "le_u16")]);
    assert_eq!(got, Step::DecodeExplicit("le_u16".to_string()));
}

#[test]
fn explicit_decoder_comes_before_count_and_type() {
    let got = only_step(
        sequence(named("Unknown")),
        vec![attr("Count", "n"), attr("Parse", "take!(4)")],
    );
    assert_eq!(got, Step::DecodeExplicit("take!(4)".to_string()));
}

#[test]
fn explicit_decoder_is_wrapped_like_any_step() {
    let got = only_step(
        optional(integer(Width::W16, false)),
        vec![attr("Parse", "be_u16"), attr("Cond", "n > 0"), attr("Verify", "x != 3")],
    );
    assert_eq!(
        got,
        Step::CondWrapper {
            guard: "n > 0".to_string(),
            inner: Box::new(Step::VerifyWrapper {
                predicate: "x != 3".to_string(),
                inner: Box::new(Step::DecodeExplicit("be_u16".to_string())),
            }),
        }
    );
}

#[test]
fn guard_wraps_the_optional_step() {
    let got = only_step(optional(integer(Width::W16, false)), vec![attr("Cond", "n == 1")]);
    assert_eq!(
        got,
        Step::CondWrapper {
            guard: "n == 1".to_string(),
            inner: Box::new(Step::DecodeOptional(Box::new(prim(Width::W16, false)))),
        }
    );
}

#[test]
fn predicate_wraps_the_step() {
    let got = only_step(integer(Width::W8, false), vec![attr("Verify", "x == 1")]);
    assert_eq!(
        got,
        Step::VerifyWrapper {
            predicate: "x == 1".to_string(),
            inner: Box::new(prim(Width::W8, false)),
        }
    );
}

#[test]
fn guard_is_outside_predicate_whatever_their_order() {
    let want = Step::CondWrapper {
        guard: "n == 1".to_string(),
        inner: Box::new(Step::VerifyWrapper {
            predicate: "x.is_some()".to_string(),
            inner: Box::new(Step::DecodeOptional(Box::new(prim(Width::W16, false)))),
        }),
    };
    let first = only_step(
        optional(integer(Width::W16, false)),
        vec![attr("Verify", "x.is_some()"), attr("Cond", "n == 1")],
    );
    let second = only_step(
        optional(integer(Width::W16, false)),
        vec![attr("Cond", "n == 1"), attr("Verify", "x.is_some()")],
    );
    assert_eq!(first, want);
    assert_eq!(second, want);
}

#[test]
fn guard_on_a_type_that_is_not_optional_is_refused() {
    let s = record("S", vec![field("x", integer(Width::W16, false), vec![attr("Cond", "true")])]);
    assert_eq!(refusal_of(s), refused(ConfigError::CondOnNonOptional, "x"));
    let v = record("S", vec![field("v", sequence(integer(Width::W8, false)), vec![attr("Cond", "true")])]);
    assert_eq!(refusal_of(v), refused(ConfigError::CondOnNonOptional, "v"));
}

#[test]
fn guard_with_explicit_decoder_still_needs_an_optional_type() {
    let s = record(
        "S",
        vec![field("x", integer(Width::W16, false), vec![attr("Parse", "be_u16"), attr("Cond", "true")])],
    );
    assert_eq!(refusal_of(s), refused(ConfigError::CondOnNonOptional, "x"));
}

#[test]
fn duplicate_directive_is_refused() {
    let s = record(
        "S",
        vec![field("x", integer(Width::W16, false), vec![attr("Verify", "x > 1"), attr("Verify", "x < 9")])],
    );
    assert_eq!(refusal_of(s), refused(ConfigError::DuplicateDirective, "x"));
}

#[test]
fn unsupported_literal_is_refused() {
    let bad = RawAttribute { name: "Verify".to_string(), value: RawValue::Unsupported };
    let s = record("S", vec![field("x", integer(Width::W16, false), vec![bad])]);
    assert_eq!(refusal_of(s), refused(ConfigError::UnsupportedLiteral, "x"));
    let word = RawAttribute { name: "Count".to_string(), value: RawValue::Word("n".to_string()) };
    let t = record("T", vec![field("y", sequence(integer(Width::W16, false)), vec![word])]);
    assert_eq!(refusal_of(t), refused(ConfigError::UnsupportedLiteral, "y"));
}

#[test]
fn duplicate_is_reported_before_unsupported() {
    let bad = RawAttribute { name: "Cond".to_string(), value: RawValue::Unsupported };
    let twice = vec![bad.clone(), attr("Verify", "a"), attr("Verify", "b")];
    assert_eq!(resolve(&twice), Err(ConfigError::DuplicateDirective));
    let reversed = vec![attr("Verify", "a"), attr("Verify", "b"), bad];
    assert_eq!(resolve(&reversed), Err(ConfigError::DuplicateDirective));
}

#[test]
fn resolution_does_not_depend_on_order() {
    let one = vec![attr("Cond", "a > 0"), attr("Verify", "b == 1"), attr("Count", "a")];
    let other = vec![attr("Count", "a"), attr("Cond", "a > 0"), attr("Verify", "b == 1")];
    let want = DirectiveSet {
        decoder: None,
        verify: Some(expr("b == 1")),
        cond: Some(expr("a > 0")),
        count: Some(expr("a")),
        selector: None,
        representation: None,
    };
    assert_eq!(resolve(&one), Ok(want.clone()));
    assert_eq!(resolve(&other), Ok(want));
}

#[test]
fn every_directive_is_resolved_by_its_name() {
    let attrs = vec![
        attr("Parse", "p"),
        attr("Verify", "v"),
        attr("Cond", "c"),
        attr("Count", "n"),
        attr("Selector", "s"),
        RawAttribute { name: "repr".to_string(), value: RawValue::Word("i16".to_string()) },
    ];
    let set = resolve(&attrs).unwrap();
    assert_eq!(set.decoder, Some(expr("p")));
    assert_eq!(set.verify, Some(expr("v")));
    assert_eq!(set.cond, Some(expr("c")));
    assert_eq!(set.count, Some(expr("n")));
    assert_eq!(set.selector, Some(expr("s")));
    assert_eq!(set.representation, Some(Primitive { width: Width::W16, signed: true }));
    assert_eq!(DirectiveKind::from_name("Parse"), Some(DirectiveKind::Decoder));
    assert_eq!(DirectiveKind::from_name("repr"), Some(DirectiveKind::Representation));
    assert_eq!(DirectiveKind::from_name("parse"), None);
    assert_eq!(DirectiveKind::from_name(""), None);
}

#[test]
fn representation_must_name_an_integer_type() {
    let c = vec![RawAttribute { name: "repr".to_string(), value: RawValue::Word("C".to_string()) }];
    assert_eq!(resolve(&c), Err(ConfigError::UnsupportedLiteral));
    let s = vec![attr("repr", "u8")];
    assert_eq!(resolve(&s), Err(ConfigError::UnsupportedLiteral));
    assert_eq!(Primitive::from_name("u64"), Some(Primitive { width: Width::W64, signed: false }));
    assert_eq!(Primitive::from_name("usize"), None);
}

#[test]
fn count_may_mention_an_earlier_field() {
    let s = record(
        "S",
        vec![
            field("a", integer(Width::W16, false), vec![]),
            field("b", sequence(integer(Width::W16, false)), vec![attr("Count", "a")]),
        ],
    );
    let plan = s.build(&Registry::new()).unwrap();
    assert_eq!(
        plan.steps,
        vec![
            step("a", prim(Width::W16, false)),
            step(
                "b",
                Step::DecodeSequence(
                    Box::new(prim(Width::W16, false)),
                    CountPolicy::Exact("a".to_string())
                )
            ),
        ]
    );
}

#[test]
fn count_may_not_mention_a_later_field() {
    let s = record(
        "S",
        vec![
            field("b", sequence(integer(Width::W16, false)), vec![attr("Count", "a")]),
            field("a", integer(Width::W16, false), vec![]),
        ],
    );
    assert_eq!(refusal_of(s), refused(ConfigError::ForwardReference, "b"));
}

#[test]
fn guard_may_not_mention_its_own_field_or_a_later_one() {
    let own = record("S", vec![field("x", optional(integer(Width::W8, false)), vec![attr("Cond", "x.is_some()")])]);
    assert_eq!(refusal_of(own), refused(ConfigError::ForwardReference, "x"));
    let later = record(
        "S",
        vec![
            field("x", optional(integer(Width::W8, false)), vec![attr("Cond", "(flags & 1) == 1")]),
            field("flags", integer(Width::W8, false), vec![]),
        ],
    );
    assert_eq!(refusal_of(later), refused(ConfigError::ForwardReference, "x"));
}

#[test]
fn names_that_are_no_fields_may_be_mentioned() {
    let s = record(
        "S",
        vec![
            field("len", integer(Width::W8, false), vec![]),
            field(
                "items",
                sequence(integer(Width::W8, false)),
                vec![attr("Count", "core::cmp::min(len as usize, MAX_ITEMS)")],
            ),
        ],
    );
    assert!(s.build(&Registry::new()).is_ok());
}

#[test]
fn predicate_and_decoder_may_mention_any_field() {
    let s = record(
        "S",
        vec![
            field("a", integer(Width::W8, false), vec![attr("Verify", "a == b")]),
            field("b", integer(Width::W8, false), vec![attr("Parse", "call!(other, b)")]),
        ],
    );
    assert!(s.build(&Registry::new()).is_ok());
}

#[test]
fn first_refused_field_is_reported() {
    let s = record(
        "S",
        vec![
            field("ok", integer(Width::W8, false), vec![]),
            field("first", integer(Width::W8, false), vec![attr("Cond", "ok > 0")]),
            field("second", named("Missing"), vec![]),
        ],
    );
    assert_eq!(refusal_of(s), refused(ConfigError::CondOnNonOptional, "first"));
}

#[test]
fn named_type_must_be_registered() {
    let s2 = record("S2", vec![field("c", integer(Width::W16, false), vec![])]);
    let s = record(
        "S",
        vec![
            field("a", integer(Width::W16, false), vec![]),
            field("b", named("S2"), vec![]),
            field("more", sequence(optional(named("S2"))), vec![]),
        ],
    );
    assert_eq!(refusal_of(s.clone()), refused(ConfigError::UnresolvedNamedType, "b"));
    let mut registry = Registry::new();
    registry.register(Schema::Record(s2));
    let plan = s.build(&registry).unwrap();
    assert_eq!(plan.steps[1], step("b", Step::DecodeNested("S2".to_string())));
}

#[test]
fn named_type_under_optional_and_sequence_must_be_registered() {
    let s = record("S", vec![field("x", optional(sequence(named("Deep"))), vec![])]);
    assert_eq!(refusal_of(s), refused(ConfigError::UnresolvedNamedType, "x"));
}

#[test]
fn explicit_decoder_needs_no_registered_type() {
    let s = record("S", vec![field("raw", named("Bytes"), vec![attr("Parse", "take!(4)")])]);
    let plan = s.build(&Registry::new()).unwrap();
    assert_eq!(plan.steps, vec![step("raw", Step::DecodeExplicit("take!(4)".to_string()))]);
}

#[test]
fn a_record_may_name_itself_once_registered() {
    let list = record(
        "List",
        vec![field("head", integer(Width::W8, false), vec![]), field("tail", optional(named("List")), vec![])],
    );
    let mut registry = Registry::new();
    registry.register(Schema::Record(list.clone()));
    let plan = nom(&Schema::Record(list), &registry).unwrap();
    match plan {
        Plan::Record(r) => assert_eq!(
            r.steps[1].step,
            Step::DecodeOptional(Box::new(Step::DecodeNested("List".to_string())))
        ),
        Plan::Union(_) => panic!("a record is planned as a record"),
    }
}

#[test]
fn registry_holds_what_was_registered() {
    let mut registry = Registry::new();
    assert!(!registry.contains("A"));
    assert!(registry.get("A").is_none());
    let first = Schema::Record(record("A", vec![]));
    let second = Schema::Record(record("A", vec![field("x", integer(Width::W8, false), vec![])]));
    registry.register(first);
    registry.register(Schema::Record(record("B", vec![])));
    assert!(registry.contains("A"));
    assert!(registry.contains("B"));
    assert!(!registry.contains("C"));
    registry.register(second.clone());
    assert_eq!(registry.get("A"), Some(&second));
    assert_eq!(registry.get("B").map(|s| s.name().clone()), Some("B".to_string()));
}

#[test]
fn synthesis_repeats() {
    let s = Schema::Record(record(
        "S",
        vec![
            field("a", integer(Width::W16, false), vec![attr("Verify", "a < 10")]),
            field("b", sequence(named("T")), vec![attr("Count", "a")]),
            field("c", optional(integer(Width::W8, true)), vec![attr("Cond", "a == 1")]),
        ],
    ));
    let mut registry = Registry::new();
    registry.register(Schema::Record(record("T", vec![])));
    let first = nom(&s, &registry);
    let second = nom(&s, &registry);
    assert!(first.is_ok());
    assert_eq!(first, second);
    let empty = Registry::new();
    let third = nom(&s, &empty);
    let fourth = nom(&s, &empty);
    assert_eq!(third, Err(refused(ConfigError::UnresolvedNamedType, "b")));
    assert_eq!(third, fourth);
}

#[test]
fn steps_can_be_copied() {
    let first = only_step(
        optional(sequence(named("T"))),
        vec![attr("Parse", "p"), attr("Cond", "n > 0"), attr("Verify", "v")],
    );
    assert_eq!(first.clone(), first);
    let seq = only_step(sequence(integer(Width::W8, false)), vec![attr("Count", "n")]);
    assert_eq!(seq.clone(), seq);
}

#[test]
fn attributes_are_told_apart_by_kind() {
    let verify = attr("Verify", "x > 0");
    assert_eq!(verify.kind(), Some(DirectiveKind::Verify));
    assert!(verify.is_kind(DirectiveKind::Verify));
    assert!(!verify.is_kind(DirectiveKind::Cond));
    assert!(!verify.is_misgiven());
    let doc = RawAttribute { name: "doc".to_string(), value: RawValue::Unsupported };
    assert_eq!(doc.kind(), None);
    assert!(!doc.is_kind(DirectiveKind::Decoder));
    assert!(!doc.is_misgiven());
    let bad = RawAttribute { name: "Parse".to_string(), value: RawValue::Word("le_u16".to_string()) };
    assert!(bad.is_misgiven());
    let repr = RawAttribute { name: "repr".to_string(), value: RawValue::Word("u32".to_string()) };
    assert!(!repr.is_misgiven());
    let packed = RawAttribute { name: "repr".to_string(), value: RawValue::Word("packed".to_string()) };
    assert!(packed.is_misgiven());
}

#[test]
fn duplicates_and_unsupported_values_are_found_anywhere() {
    let doc = RawAttribute { name: "doc".to_string(), value: RawValue::Unsupported };
    let bad = RawAttribute { name: "Cond".to_string(), value: RawValue::Unsupported };
    assert!(!has_duplicate(&vec![]));
    assert!(!has_unsupported(&vec![]));
    assert!(!has_duplicate(&vec![doc.clone(), doc.clone(), attr("Cond", "a")]));
    assert!(has_duplicate(&vec![attr("Cond", "a"), doc.clone(), attr("Verify", "b"), bad.clone()]));
    assert!(!has_unsupported(&vec![doc.clone(), attr("Cond", "a")]));
    assert!(has_unsupported(&vec![attr("Verify", "b"), doc, bad]));
}

#[test]
fn first_directive_of_a_kind_gives_the_value() {
    let attrs = vec![
        RawAttribute { name: "repr".to_string(), value: RawValue::Word("u16".to_string()) },
        attr("Selector", "first"),
        attr("Selector", "second"),
    ];
    assert_eq!(
        first_value(&attrs, DirectiveKind::Selector),
        Some(&RawValue::Str(expr("first")))
    );
    assert_eq!(first_value(&attrs, DirectiveKind::Count), None);
    assert_eq!(first_expression(&attrs, DirectiveKind::Selector), Some(expr("first")));
    assert_eq!(first_expression(&attrs, DirectiveKind::Representation), None);
    assert_eq!(
        first_representation(&attrs),
        Some(Primitive { width: Width::W16, signed: false })
    );
    assert_eq!(first_representation(&vec![attr("repr", "u16")]), None);
}

#[test]
fn field_is_built_under_resolved_directives() {
    let f = field("x", optional(named("T")), vec![attr("Cond", "n > 0")]);
    let set = resolve(&f.attrs).unwrap();
    let empty = Registry::new();
    assert_eq!(f.build(&set, &empty), Err(ConfigError::UnresolvedNamedType));
    let mut registry = Registry::new();
    registry.register(Schema::Record(record("T", vec![])));
    assert_eq!(
        f.build(&set, &registry),
        Ok(Step::CondWrapper {
            guard: "n > 0".to_string(),
            inner: Box::new(Step::DecodeOptional(Box::new(Step::DecodeNested("T".to_string())))),
        })
    );
    assert!(f.ty.is_dangling(&empty));
    assert!(!f.ty.is_dangling(&registry));
    assert!(!integer(Width::W8, false).is_dangling(&empty));
    assert_eq!(f.ty.clone(), f.ty);
}

#[test]
fn base_and_wrappers_are_built_apart() {
    let set = resolve(&vec![attr("Count", "n"), attr("Verify", "v.len() > 0")]).unwrap();
    let base = build_base(&sequence(integer(Width::W8, false)), &set);
    assert_eq!(
        base,
        Step::DecodeSequence(Box::new(prim(Width::W8, false)), CountPolicy::Exact("n".to_string()))
    );
    assert_eq!(
        wrap(base.clone(), &set),
        Step::VerifyWrapper { predicate: "v.len() > 0".to_string(), inner: Box::new(base) }
    );
    let none = resolve(&vec![]).unwrap();
    assert_eq!(wrap(prim(Width::W8, true), &none), prim(Width::W8, true));
}

#[test]
fn refusal_names_its_subject() {
    let r = Rejection::new(ConfigError::MissingSelector, &"V".to_string());
    assert_eq!(r, refused(ConfigError::MissingSelector, "V"));
    assert_eq!(Schema::Record(record("S", vec![])).name(), "S");
}

#[test]
fn nested_type_is_found_under_optional_and_sequence() {
    assert_eq!(integer(Width::W8, false).nested(), None);
    assert_eq!(optional(integer(Width::W8, false)).nested(), None);
    assert_eq!(named("T").nested(), Some(&"T".to_string()));
    assert_eq!(sequence(optional(named("Deep"))).nested(), Some(&"Deep".to_string()));
}
