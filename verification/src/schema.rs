//! The description of a type's shape: what synthesis takes in.

use vstd::arithmetic::power2::{lemma2_to64, lemma2_to64_rest, pow2};
use vstd::prelude::*;
use crate::text::{copy_texts, texts};

verus! {

/// The bit width of a fixed-width integer.
#[derive(Clone, Copy, Debug, PartialEq, Eq, Structural)]
pub enum Width {
    W8,
    W16,
    W32,
    W64,
}

impl Width {
    /// The number of bits.
    pub open spec fn spec_bits(self) -> nat {
        match self {
            Width::W8 => 8,
            Width::W16 => 16,
            Width::W32 => 32,
            Width::W64 => 64,
        }
    }

    /// The number of bits.
    pub fn bits(self) -> (r: u8)
        ensures
            r == self.spec_bits(),
    {
        match self {
            Width::W8 => 8,
            Width::W16 => 16,
            Width::W32 => 32,
            Width::W64 => 64,
        }
    }
}

/// A fixed-width integer type.
#[derive(Clone, Copy, Debug, PartialEq, Eq, Structural)]
pub struct Primitive {
    pub width: Width,
    pub signed: bool,
}

/// The least number that the integer type holds: zero, or for a signed type of `n` bits
/// the negative of two to the power of `n - 1`.
#[verifier::opaque]
pub open spec fn lowest(p: Primitive) -> int {
    if p.signed {
        -pow2((p.width.spec_bits() - 1) as nat)
    } else {
        0
    }
}

/// The greatest number that the integer type holds: for a type of `n` bits, one less than
/// two to the power of `n`, or of `n - 1` where the type is signed.
#[verifier::opaque]
pub open spec fn highest(p: Primitive) -> int {
    if p.signed {
        pow2((p.width.spec_bits() - 1) as nat) - 1
    } else {
        pow2(p.width.spec_bits()) - 1
    }
}

/// Whether the integer type holds the number.
pub open spec fn fits(p: Primitive, v: int) -> bool {
    lowest(p) <= v <= highest(p)
}

/// The numbers that an integer type holds lie within those of 64 bits.
pub proof fn lemma_bounds(p: Primitive)
    ensures
        -0x8000_0000_0000_0000 <= lowest(p) <= 0,
        0 < highest(p) <= 0xffff_ffff_ffff_ffff,
{
    reveal(lowest);
    reveal(highest);
    lemma2_to64();
    lemma2_to64_rest();
}

impl Primitive {
    /// The least number that the integer type holds.
    pub fn min_value(&self) -> (r: i128)
        ensures
            r == lowest(*self),
    {
        proof {
            reveal(lowest);
            lemma2_to64();
            lemma2_to64_rest();
        }
        if self.signed {
            match self.width {
                Width::W8 => -0x80,
                Width::W16 => -0x8000,
                Width::W32 => -0x8000_0000,
                Width::W64 => -0x8000_0000_0000_0000,
            }
        } else {
            0
        }
    }

    /// The greatest number that the integer type holds.
    pub fn max_value(&self) -> (r: i128)
        ensures
            r == highest(*self),
    {
        proof {
            reveal(highest);
            lemma2_to64();
            lemma2_to64_rest();
        }
        if self.signed {
            match self.width {
                Width::W8 => 0x7f,
                Width::W16 => 0x7fff,
                Width::W32 => 0x7fff_ffff,
                Width::W64 => 0x7fff_ffff_ffff_ffff,
            }
        } else {
            match self.width {
                Width::W8 => 0xff,
                Width::W16 => 0xffff,
                Width::W32 => 0xffff_ffff,
                Width::W64 => 0xffff_ffff_ffff_ffff,
            }
        }
    }

    /// Whether the integer type holds the number.
    pub fn holds(&self, v: i128) -> (r: bool)
        ensures
            r == fits(*self, v as int),
    {
        self.min_value() <= v && v <= self.max_value()
    }
}

/// An expression as its author wrote it, with the names it mentions.
#[derive(Debug, PartialEq, Eq)]
pub struct Expression {
    /// The expression's text.
    pub text: String,
    /// The identifiers that occur in the text, in their order.
    pub names: Vec<String>,
}

/// The model of an [`Expression`].
pub struct ExpressionModel {
    pub text: Seq<char>,
    pub names: Seq<Seq<char>>,
}

impl View for Expression {
    type V = ExpressionModel;

    open spec fn view(&self) -> ExpressionModel {
        ExpressionModel { text: self.text@, names: texts(self.names@) }
    }
}

impl Clone for Expression {
    fn clone(&self) -> (r: Self)
        ensures
            r@ == self@,
    {
        Expression { text: self.text.clone(), names: copy_texts(&self.names) }
    }
}

/// What a directive was given as its value.
#[derive(Clone, Debug, PartialEq, Eq)]
pub enum RawValue {
    /// A string literal, holding an expression.
    Str(Expression),
    /// A bare word.
    Word(String),
    /// Anything else.
    Unsupported,
}

/// The model of a [`RawValue`].
pub enum RawValueModel {
    Str(ExpressionModel),
    Word(Seq<char>),
    Unsupported,
}

impl View for RawValue {
    type V = RawValueModel;

    open spec fn view(&self) -> RawValueModel {
        match self {
            RawValue::Str(e) => RawValueModel::Str(e@),
            RawValue::Word(w) => RawValueModel::Word(w@),
            RawValue::Unsupported => RawValueModel::Unsupported,
        }
    }
}

/// A directive as it is attached to a field, a variant or a union: a name and a value.
#[derive(Clone, Debug, PartialEq, Eq)]
pub struct RawAttribute {
    pub name: String,
    pub value: RawValue,
}

/// The model of a [`RawAttribute`].
pub struct AttributeModel {
    pub name: Seq<char>,
    pub value: RawValueModel,
}

impl View for RawAttribute {
    type V = AttributeModel;

    open spec fn view(&self) -> AttributeModel {
        AttributeModel { name: self.name@, value: self.value@ }
    }
}

/// The views of a list of attributes.
pub open spec fn attributes(list: Seq<RawAttribute>) -> Seq<AttributeModel> {
    list.map_values(|a: RawAttribute| a@)
}

/// The declared type of a field.
#[derive(Debug, PartialEq, Eq)]
pub enum TypeDescriptor {
    /// A fixed-width integer.
    Primitive(Primitive),
    /// A value that may be absent.
    Optional(Box<TypeDescriptor>),
    /// A run of values.
    Sequence(Box<TypeDescriptor>),
    /// Another described type, by its identifier.
    Named(String),
}

/// The model of a [`TypeDescriptor`].
pub enum TypeModel {
    Primitive(Primitive),
    Optional(Box<TypeModel>),
    Sequence(Box<TypeModel>),
    Named(Seq<char>),
}

/// The model of a declared type.
pub open spec fn type_model(ty: TypeDescriptor) -> TypeModel
    decreases ty,
{
    match ty {
        TypeDescriptor::Primitive(p) => TypeModel::Primitive(p),
        TypeDescriptor::Optional(inner) => TypeModel::Optional(Box::new(type_model(*inner))),
        TypeDescriptor::Sequence(inner) => TypeModel::Sequence(Box::new(type_model(*inner))),
        TypeDescriptor::Named(id) => TypeModel::Named(id@),
    }
}

impl View for TypeDescriptor {
    type V = TypeModel;

    open spec fn view(&self) -> TypeModel {
        type_model(*self)
    }
}

impl Clone for TypeDescriptor {
    fn clone(&self) -> (r: Self)
        ensures
            r@ == self@,
        decreases self,
    {
        match self {
            TypeDescriptor::Primitive(p) => TypeDescriptor::Primitive(*p),
            TypeDescriptor::Optional(inner) => TypeDescriptor::Optional(
                Box::new((**inner).clone()),
            ),
            TypeDescriptor::Sequence(inner) => TypeDescriptor::Sequence(
                Box::new((**inner).clone()),
            ),
            TypeDescriptor::Named(id) => TypeDescriptor::Named(id.clone()),
        }
    }
}

/// One field of a record.
#[derive(Clone, Debug, PartialEq, Eq)]
pub struct Field {
    /// The field's name; of a positional field, the name its value is bound to.
    pub name: String,
    pub ty: TypeDescriptor,
    pub attrs: Vec<RawAttribute>,
}

/// The model of a [`Field`].
pub struct FieldModel {
    pub name: Seq<char>,
    pub ty: TypeModel,
    pub attrs: Seq<AttributeModel>,
}

impl View for Field {
    type V = FieldModel;

    open spec fn view(&self) -> FieldModel {
        FieldModel { name: self.name@, ty: self.ty@, attrs: attributes(self.attrs@) }
    }
}

/// The views of a list of fields.
pub open spec fn field_models(list: Seq<Field>) -> Seq<FieldModel> {
    list.map_values(|f: Field| f@)
}

/// A product of fields, in the order of their declaration.
#[derive(Clone, Debug, PartialEq, Eq)]
pub struct Record {
    /// The name of the type, or of the variant, that the fields make up.
    pub name: String,
    pub fields: Vec<Field>,
    /// Whether the fields are positional rather than named.
    pub positional: bool,
}

/// The model of a [`Record`].
pub struct RecordModel {
    pub name: Seq<char>,
    pub fields: Seq<FieldModel>,
    pub positional: bool,
}

impl View for Record {
    type V = RecordModel;

    open spec fn view(&self) -> RecordModel {
        RecordModel {
            name: self.name@,
            fields: field_models(self.fields@),
            positional: self.positional,
        }
    }
}

/// One variant of a union.
#[derive(Clone, Debug, PartialEq, Eq)]
pub struct Variant {
    pub attrs: Vec<RawAttribute>,
    /// The discriminant the declaration gives the variant, if it gives one.
    pub discriminant: Option<i128>,
    /// The variant's name and fields.
    pub record: Record,
}

/// The model of a [`Variant`].
pub struct VariantModel {
    pub attrs: Seq<AttributeModel>,
    pub discriminant: Option<int>,
    pub record: RecordModel,
}

impl View for Variant {
    type V = VariantModel;

    open spec fn view(&self) -> VariantModel {
        VariantModel {
            attrs: attributes(self.attrs@),
            discriminant: match self.discriminant {
                Some(d) => Some(d as int),
                None => None,
            },
            record: self.record@,
        }
    }
}

/// The views of a list of variants.
pub open spec fn variant_models(list: Seq<Variant>) -> Seq<VariantModel> {
    list.map_values(|v: Variant| v@)
}

/// A set of variants, one of which a discriminant selects.
#[derive(Clone, Debug, PartialEq, Eq)]
pub struct Union {
    pub name: String,
    /// The directives on the union itself: the type of its discriminant, its representation.
    pub attrs: Vec<RawAttribute>,
    pub variants: Vec<Variant>,
}

/// The model of a [`Union`].
pub struct UnionModel {
    pub name: Seq<char>,
    pub attrs: Seq<AttributeModel>,
    pub variants: Seq<VariantModel>,
}

impl View for Union {
    type V = UnionModel;

    open spec fn view(&self) -> UnionModel {
        UnionModel {
            name: self.name@,
            attrs: attributes(self.attrs@),
            variants: variant_models(self.variants@),
        }
    }
}

/// A named type together with its shape.
#[derive(Clone, Debug, PartialEq, Eq)]
pub enum Schema {
    Record(Record),
    Union(Union),
}

/// The model of a [`Schema`].
pub enum SchemaModel {
    Record(RecordModel),
    Union(UnionModel),
}

impl View for Schema {
    type V = SchemaModel;

    open spec fn view(&self) -> SchemaModel {
        match self {
            Schema::Record(r) => SchemaModel::Record(r@),
            Schema::Union(u) => SchemaModel::Union(u@),
        }
    }
}

impl SchemaModel {
    /// The name of the described type.
    pub open spec fn name(self) -> Seq<char> {
        match self {
            SchemaModel::Record(r) => r.name,
            SchemaModel::Union(u) => u.name,
        }
    }
}

impl Schema {
    /// The name of the described type.
    pub fn name(&self) -> (r: &String)
        ensures
            r@ == self@.name(),
    {
        match self {
            Schema::Record(r) => &r.name,
            Schema::Union(u) => &u.name,
        }
    }
}
} // verus!
