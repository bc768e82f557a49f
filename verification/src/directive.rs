//! Directives: the overrides attached to a field, a variant or a union, and their resolution.

use vstd::prelude::*;
use crate::error::ConfigError;
use crate::model::{option_model, result_model};
use crate::schema::{
    attributes, AttributeModel, Expression, ExpressionModel, Primitive, RawAttribute, RawValue,
    RawValueModel, Width,
};
use crate::search::{first_true, lemma_first_true, lemma_first_true_at, lemma_first_true_none};
use crate::text::same_text;

verus! {

/// The kinds of directive.
#[derive(Clone, Copy, Debug, PartialEq, Eq, Structural)]
pub enum DirectiveKind {
    /// `Parse`: the decoder, given as an expression.
    Decoder,
    /// `Verify`: a predicate that the decoded value must satisfy.
    Verify,
    /// `Cond`: a guard that decides whether the field is decoded at all.
    Cond,
    /// `Count`: the number of items of a sequence.
    Count,
    /// `Selector`: on a variant, what selects it; on a union, the type of its discriminant.
    Selector,
    /// `repr`: the integer type that represents a fieldless union.
    Representation,
}

/// The kind of directive that goes by `name`, if any does.
pub open spec fn kind_of(name: Seq<char>) -> Option<DirectiveKind> {
    if name == "Parse"@ {
        Some(DirectiveKind::Decoder)
    } else if name == "Verify"@ {
        Some(DirectiveKind::Verify)
    } else if name == "Cond"@ {
        Some(DirectiveKind::Cond)
    } else if name == "Count"@ {
        Some(DirectiveKind::Count)
    } else if name == "Selector"@ {
        Some(DirectiveKind::Selector)
    } else if name == "repr"@ {
        Some(DirectiveKind::Representation)
    } else {
        None
    }
}

/// The integer type that goes by `word`, if any does.
pub open spec fn primitive_of(word: Seq<char>) -> Option<Primitive> {
    if word == "u8"@ {
        Some(Primitive { width: Width::W8, signed: false })
    } else if word == "u16"@ {
        Some(Primitive { width: Width::W16, signed: false })
    } else if word == "u32"@ {
        Some(Primitive { width: Width::W32, signed: false })
    } else if word == "u64"@ {
        Some(Primitive { width: Width::W64, signed: false })
    } else if word == "i8"@ {
        Some(Primitive { width: Width::W8, signed: true })
    } else if word == "i16"@ {
        Some(Primitive { width: Width::W16, signed: true })
    } else if word == "i32"@ {
        Some(Primitive { width: Width::W32, signed: true })
    } else if word == "i64"@ {
        Some(Primitive { width: Width::W64, signed: true })
    } else {
        None
    }
}

impl DirectiveKind {
    /// The kind of directive that goes by `name`, if any does.
    pub fn from_name(name: &str) -> (r: Option<DirectiveKind>)
        ensures
            r == kind_of(name@),
    {
        if same_text(name, "Parse") {
            Some(DirectiveKind::Decoder)
        } else if same_text(name, "Verify") {
            Some(DirectiveKind::Verify)
        } else if same_text(name, "Cond") {
            Some(DirectiveKind::Cond)
        } else if same_text(name, "Count") {
            Some(DirectiveKind::Count)
        } else if same_text(name, "Selector") {
            Some(DirectiveKind::Selector)
        } else if same_text(name, "repr") {
            Some(DirectiveKind::Representation)
        } else {
            None
        }
    }
}

impl Primitive {
    /// The integer type that goes by `word`, if any does.
    pub fn from_name(word: &str) -> (r: Option<Primitive>)
        ensures
            r == primitive_of(word@),
    {
        if same_text(word, "u8") {
            Some(Primitive { width: Width::W8, signed: false })
        } else if same_text(word, "u16") {
            Some(Primitive { width: Width::W16, signed: false })
        } else if same_text(word, "u32") {
            Some(Primitive { width: Width::W32, signed: false })
        } else if same_text(word, "u64") {
            Some(Primitive { width: Width::W64, signed: false })
        } else if same_text(word, "i8") {
            Some(Primitive { width: Width::W8, signed: true })
        } else if same_text(word, "i16") {
            Some(Primitive { width: Width::W16, signed: true })
        } else if same_text(word, "i32") {
            Some(Primitive { width: Width::W32, signed: true })
        } else if same_text(word, "i64") {
            Some(Primitive { width: Width::W64, signed: true })
        } else {
            None
        }
    }
}

/// The directives of one field, variant or union, each kind at most once.
#[derive(Clone, Debug, PartialEq, Eq)]
pub struct DirectiveSet {
    pub decoder: Option<Expression>,
    pub verify: Option<Expression>,
    pub cond: Option<Expression>,
    pub count: Option<Expression>,
    pub selector: Option<Expression>,
    pub representation: Option<Primitive>,
}

/// The model of a [`DirectiveSet`].
pub struct DirectiveSetModel {
    pub decoder: Option<ExpressionModel>,
    pub verify: Option<ExpressionModel>,
    pub cond: Option<ExpressionModel>,
    pub count: Option<ExpressionModel>,
    pub selector: Option<ExpressionModel>,
    pub representation: Option<Primitive>,
}

impl View for DirectiveSet {
    type V = DirectiveSetModel;

    open spec fn view(&self) -> DirectiveSetModel {
        DirectiveSetModel {
            decoder: option_model(self.decoder),
            verify: option_model(self.verify),
            cond: option_model(self.cond),
            count: option_model(self.count),
            selector: option_model(self.selector),
            representation: self.representation,
        }
    }
}

/// Whether two of the attributes give the same kind of directive.
pub open spec fn duplicated(attrs: Seq<AttributeModel>) -> bool {
    exists|i: int, j: int|
        0 <= i < j < attrs.len() && kind_of(attrs[i].name) is Some && kind_of(attrs[i].name)
            == kind_of(attrs[j].name)
}

/// Whether `value` has the form that a directive of `kind` takes: the name of an integer
/// type for a representation, a string for the others.
pub open spec fn understood(kind: DirectiveKind, value: RawValueModel) -> bool {
    match kind {
        DirectiveKind::Representation => value matches RawValueModel::Word(w) && primitive_of(w)
            is Some,
        _ => value is Str,
    }
}

/// Whether the attribute is a directive whose value is not understood.
pub open spec fn misgiven(attr: AttributeModel) -> bool {
    match kind_of(attr.name) {
        Some(kind) => !understood(kind, attr.value),
        None => false,
    }
}

/// Whether one of the attributes is a directive whose value is not understood.
pub open spec fn unsupported(attrs: Seq<AttributeModel>) -> bool {
    exists|i: int| 0 <= i < attrs.len() && misgiven(#[trigger] attrs[i])
}

/// For each attribute, whether it is a directive of `kind`.
pub open spec fn of_kind(attrs: Seq<AttributeModel>, kind: DirectiveKind) -> Seq<bool> {
    attrs.map_values(|a: AttributeModel| kind_of(a.name) == Some(kind))
}

/// The value of the first directive of `kind` among the attributes.
pub open spec fn value_of(attrs: Seq<AttributeModel>, kind: DirectiveKind) -> Option<
    RawValueModel,
> {
    match first_true(of_kind(attrs, kind)) {
        Some(i) => Some(attrs[i].value),
        None => None,
    }
}

/// The expression given to the directive of `kind`, if there is one.
pub open spec fn expression_of(attrs: Seq<AttributeModel>, kind: DirectiveKind) -> Option<
    ExpressionModel,
> {
    match value_of(attrs, kind) {
        Some(RawValueModel::Str(e)) => Some(e),
        _ => None,
    }
}

/// The integer type given as the representation, if there is one.
pub open spec fn representation_of(attrs: Seq<AttributeModel>) -> Option<Primitive> {
    match value_of(attrs, DirectiveKind::Representation) {
        Some(RawValueModel::Word(w)) => primitive_of(w),
        _ => None,
    }
}

/// What the attributes resolve to. Attributes that name no directive are passed over. A
/// kind given twice is refused first, then a value that is not understood, wherever in the
/// list they stand.
pub open spec fn resolved(attrs: Seq<AttributeModel>) -> Result<DirectiveSetModel, ConfigError> {
    if duplicated(attrs) {
        Err(ConfigError::DuplicateDirective)
    } else if unsupported(attrs) {
        Err(ConfigError::UnsupportedLiteral)
    } else {
        Ok(
            DirectiveSetModel {
                decoder: expression_of(attrs, DirectiveKind::Decoder),
                verify: expression_of(attrs, DirectiveKind::Verify),
                cond: expression_of(attrs, DirectiveKind::Cond),
                count: expression_of(attrs, DirectiveKind::Count),
                selector: expression_of(attrs, DirectiveKind::Selector),
                representation: representation_of(attrs),
            },
        )
    }
}

impl RawAttribute {
    /// The kind of directive that the attribute gives, if it gives one.
    pub fn kind(&self) -> (r: Option<DirectiveKind>)
        ensures
            r == kind_of(self@.name),
    {
        DirectiveKind::from_name(self.name.as_str())
    }

    /// Whether the attribute gives a directive of `kind`.
    pub fn is_kind(&self, kind: DirectiveKind) -> (r: bool)
        ensures
            r == (kind_of(self@.name) == Some(kind)),
    {
        match self.kind() {
            Some(k) => k == kind,
            None => false,
        }
    }

    /// Whether the attribute is a directive whose value is not understood.
    pub fn is_misgiven(&self) -> (r: bool)
        ensures
            r == misgiven(self@),
    {
        match self.kind() {
            None => false,
            Some(DirectiveKind::Representation) => match &self.value {
                RawValue::Word(w) => Primitive::from_name(w.as_str()).is_none(),
                _ => true,
            },
            Some(_) => match &self.value {
                RawValue::Str(_) => false,
                _ => true,
            },
        }
    }
}

/// Whether two of the attributes give the same kind of directive.
pub fn has_duplicate(attrs: &Vec<RawAttribute>) -> (r: bool)
    ensures
        r == duplicated(attributes(attrs@)),
{
    let ghost a = attributes(attrs@);
    let mut j: usize = 0;
    while j < attrs.len()
        invariant
            j <= attrs.len(),
            a == attributes(attrs@),
            forall|x: int, y: int|
                0 <= x < y < j ==> !(kind_of(a[x].name) is Some && kind_of(a[x].name) == kind_of(
                    a[y].name,
                )),
        decreases attrs.len() - j,
    {
        let kind = attrs[j].kind();
        if let Some(k) = kind {
            let mut i: usize = 0;
            while i < j
                invariant
                    i <= j < attrs.len(),
                    a == attributes(attrs@),
                    kind_of(a[j as int].name) == Some(k),
                    forall|x: int| 0 <= x < i ==> kind_of(a[x].name) != Some(k),
                decreases j - i,
            {
                if attrs[i].is_kind(k) {
                    assert(kind_of(a[i as int].name) is Some && kind_of(a[i as int].name)
                        == kind_of(a[j as int].name));
                    return true;
                }
                i = i + 1;
            }
        }
        j = j + 1;
    }
    false
}

/// Whether one of the attributes is a directive whose value is not understood.
pub fn has_unsupported(attrs: &Vec<RawAttribute>) -> (r: bool)
    ensures
        r == unsupported(attributes(attrs@)),
{
    let ghost a = attributes(attrs@);
    let mut i: usize = 0;
    while i < attrs.len()
        invariant
            i <= attrs.len(),
            a == attributes(attrs@),
            forall|x: int| 0 <= x < i ==> !misgiven(#[trigger] a[x]),
        decreases attrs.len() - i,
    {
        if attrs[i].is_misgiven() {
            assert(misgiven(a[i as int]));
            return true;
        }
        i = i + 1;
    }
    false
}

/// The value of the first directive of `kind` among the attributes.
pub fn first_value(attrs: &Vec<RawAttribute>, kind: DirectiveKind) -> (r: Option<&RawValue>)
    ensures
        option_model(r) == value_of(attributes(attrs@), kind),
{
    let ghost a = attributes(attrs@);
    let mut i: usize = 0;
    while i < attrs.len()
        invariant
            i <= attrs.len(),
            a == attributes(attrs@),
            forall|j: int| 0 <= j < i ==> !of_kind(a, kind)[j],
        decreases attrs.len() - i,
    {
        if attrs[i].is_kind(kind) {
            proof {
                lemma_first_true_at(of_kind(a, kind), i as int);
            }
            return Some(&attrs[i].value);
        }
        i = i + 1;
    }
    proof {
        lemma_first_true_none(of_kind(a, kind));
    }
    None
}

/// The expression given to the first directive of `kind` among the attributes.
pub fn first_expression(attrs: &Vec<RawAttribute>, kind: DirectiveKind) -> (r: Option<
    Expression,
>)
    ensures
        option_model(r) == expression_of(attributes(attrs@), kind),
{
    match first_value(attrs, kind) {
        Some(RawValue::Str(e)) => Some(e.clone()),
        _ => None,
    }
}

/// The integer type given to the first representation directive among the attributes.
pub fn first_representation(attrs: &Vec<RawAttribute>) -> (r: Option<Primitive>)
    ensures
        r == representation_of(attributes(attrs@)),
{
    match first_value(attrs, DirectiveKind::Representation) {
        Some(RawValue::Word(w)) => Primitive::from_name(w.as_str()),
        _ => None,
    }
}

/// Resolves the attributes of one field, variant or union into its directives.
///
/// Attributes that name no directive are passed over. The list is refused with
/// `DuplicateDirective` where a kind is given twice; else with `UnsupportedLiteral` where a
/// directive's value is not understood. The order of the attributes plays no part.
pub fn resolve(attrs: &Vec<RawAttribute>) -> (r: Result<DirectiveSet, ConfigError>)
    ensures
        result_model(r) == resolved(attributes(attrs@)),
{
    if has_duplicate(attrs) {
        return Err(ConfigError::DuplicateDirective);
    }
    if has_unsupported(attrs) {
        return Err(ConfigError::UnsupportedLiteral);
    }
    Ok(
        DirectiveSet {
            decoder: first_expression(attrs, DirectiveKind::Decoder),
            verify: first_expression(attrs, DirectiveKind::Verify),
            cond: first_expression(attrs, DirectiveKind::Cond),
            count: first_expression(attrs, DirectiveKind::Count),
            selector: first_expression(attrs, DirectiveKind::Selector),
            representation: first_representation(attrs),
        },
    )
}

/// A directive of `kind` has a value exactly if one of the attributes is of that kind.
pub proof fn lemma_value_of_some(attrs: Seq<AttributeModel>, kind: DirectiveKind)
    ensures
        value_of(attrs, kind) is Some <==> exists|i: int|
            0 <= i < attrs.len() && #[trigger] kind_of(attrs[i].name) == Some(kind),
{
    lemma_first_true(of_kind(attrs, kind));
    if value_of(attrs, kind) is None {
        assert forall|i: int| 0 <= i < attrs.len() implies #[trigger] kind_of(attrs[i].name)
            != Some(kind) by {
            assert(!of_kind(attrs, kind)[i]);
        }
    } else {
        let i = first_true(of_kind(attrs, kind))->0;
        assert(kind_of(attrs[i].name) == Some(kind));
    }
}

/// An attribute that stands at two places of a list occurs twice in it.
proof fn lemma_twice(attrs: Seq<AttributeModel>, i: int, j: int)
    requires
        0 <= i < j < attrs.len(),
        attrs[i] == attrs[j],
    ensures
        attrs.to_multiset().count(attrs[i]) >= 2,
{
    broadcast use vstd::multiset::group_multiset_axioms;

    let rest = attrs.remove(i);
    attrs.to_multiset_ensures();
    rest.to_multiset_ensures();
    assert(rest[j - 1] == attrs[i]);
    assert(rest.contains(attrs[i]));
    assert(rest.to_multiset() == attrs.to_multiset().remove(attrs[i]));
    assert(rest.to_multiset().count(attrs[i]) > 0);
}

/// An attribute that occurs twice in a list stands at two places of it.
proof fn lemma_two_places(attrs: Seq<AttributeModel>, x: AttributeModel)
    requires
        attrs.to_multiset().count(x) >= 2,
    ensures
        exists|p: int, q: int| 0 <= p < q < attrs.len() && attrs[p] == x && attrs[q] == x,
{
    broadcast use vstd::multiset::group_multiset_axioms;

    attrs.to_multiset_ensures();
    assert(attrs.contains(x));
    let i = choose|i: int| 0 <= i < attrs.len() && attrs[i] == x;
    let rest = attrs.remove(i);
    rest.to_multiset_ensures();
    assert(rest.to_multiset() == attrs.to_multiset().remove(x));
    assert(rest.to_multiset().count(x) > 0);
    assert(rest.contains(x));
    let k = choose|k: int| 0 <= k < rest.len() && rest[k] == x;
    if k < i {
        assert(attrs[k] == x);
    } else {
        assert(attrs[k + 1] == x);
    }
}

/// What a list holds, a rearrangement of it holds at some place.
proof fn lemma_member_kept(attrs: Seq<AttributeModel>, other: Seq<AttributeModel>, i: int) -> (p:
    int)
    requires
        attrs.to_multiset() == other.to_multiset(),
        0 <= i < attrs.len(),
    ensures
        0 <= p < other.len(),
        other[p] == attrs[i],
{
    attrs.to_multiset_ensures();
    other.to_multiset_ensures();
    assert(attrs.contains(attrs[i]));
    assert(attrs.to_multiset().count(attrs[i]) > 0);
    assert(other.to_multiset().count(attrs[i]) > 0);
    assert(other.contains(attrs[i]));
    choose|p: int| 0 <= p < other.len() && other[p] == attrs[i]
}

/// A list that is rearranged holds a kind twice if it did before.
proof fn lemma_duplicated_rearranged(attrs: Seq<AttributeModel>, other: Seq<AttributeModel>)
    requires
        attrs.to_multiset() == other.to_multiset(),
        duplicated(attrs),
    ensures
        duplicated(other),
{
    let (i, j) = choose|i: int, j: int|
        0 <= i < j < attrs.len() && kind_of(attrs[i].name) is Some && kind_of(attrs[i].name)
            == kind_of(attrs[j].name);
    attrs.to_multiset_ensures();
    other.to_multiset_ensures();
    let (p, q) = if attrs[i] == attrs[j] {
        lemma_twice(attrs, i, j);
        lemma_two_places(other, attrs[i]);
        choose|p: int, q: int|
            0 <= p < q < other.len() && other[p] == attrs[i] && other[q] == attrs[i]
    } else {
        let p = lemma_member_kept(attrs, other, i);
        let q = lemma_member_kept(attrs, other, j);
        if p < q {
            (p, q)
        } else {
            (q, p)
        }
    };
    assert(kind_of(other[p].name) is Some && kind_of(other[p].name) == kind_of(other[q].name));
}

/// In a list that holds no kind twice, rearranging leaves each directive its value.
proof fn lemma_value_rearranged(
    attrs: Seq<AttributeModel>,
    other: Seq<AttributeModel>,
    kind: DirectiveKind,
)
    requires
        attrs.to_multiset() == other.to_multiset(),
        !duplicated(other),
    ensures
        value_of(attrs, kind) is Some ==> value_of(other, kind) == value_of(attrs, kind),
{
    attrs.to_multiset_ensures();
    other.to_multiset_ensures();
    lemma_first_true(of_kind(attrs, kind));
    lemma_first_true(of_kind(other, kind));
    if let Some(i) = first_true(of_kind(attrs, kind)) {
        let p = lemma_member_kept(attrs, other, i);
        assert(of_kind(other, kind)[p]);
        let q = first_true(of_kind(other, kind))->0;
        if q != p {
            assert(kind_of(other[q].name) is Some && kind_of(other[q].name) == kind_of(
                other[p].name,
            ));
        }
    }
}

/// The order of the attributes plays no part in what they resolve to: a list and a
/// rearrangement of it resolve to the same directives, or are refused for the same reason.
pub proof fn lemma_resolution_ignores_order(attrs: Seq<AttributeModel>, other: Seq<AttributeModel>)
    requires
        attrs.to_multiset() == other.to_multiset(),
    ensures
        resolved(attrs) == resolved(other),
{
    attrs.to_multiset_ensures();
    other.to_multiset_ensures();
    if duplicated(attrs) {
        lemma_duplicated_rearranged(attrs, other);
    } else if duplicated(other) {
        lemma_duplicated_rearranged(other, attrs);
    } else {
        if unsupported(attrs) {
            let i = choose|i: int| 0 <= i < attrs.len() && misgiven(#[trigger] attrs[i]);
            let p = lemma_member_kept(attrs, other, i);
            assert(misgiven(other[p]));
        }
        if unsupported(other) {
            let i = choose|i: int| 0 <= i < other.len() && misgiven(#[trigger] other[i]);
            let p = lemma_member_kept(other, attrs, i);
            assert(misgiven(attrs[p]));
        }
        assert forall|kind: DirectiveKind| value_of(attrs, kind) == value_of(other, kind) by {
            lemma_value_rearranged(attrs, other, kind);
            lemma_value_rearranged(other, attrs, kind);
        }
    }
}
} // verus!
