use vstd::prelude::*;

verus! {

/// A runtime value captured from the interpreter, reduced to plain data.
///
/// Wide integers (64 bits and above) lose precision in a JSON number, so
/// the encoder renders them as decimal strings; a 256-bit integer is
/// carried here as the decimal rendering the runtime produced for it.
/// Addresses, signers and variant tags are carried in their canonical
/// string forms.
#[derive(Debug, PartialEq, Eq)]
pub enum MoveValue {
    U8(u8),
    U16(u16),
    U32(u32),
    U64(u64),
    U128(u128),
    U256(String),
    Bool(bool),
    Address(String),
    Signer(String),
    Vector(Vec<MoveValue>),
    Struct(MoveStruct),
    Variant(String),
}

/// A record value: a type tag and the fields in declaration order.
#[derive(Debug, PartialEq, Eq)]
pub struct MoveStruct {
    pub type_: String,
    pub fields: Vec<(String, MoveValue)>,
}

/// An argument as captured at a call boundary: either a reconstructed
/// runtime value or a placeholder string for one that could not be
/// rebuilt.
#[derive(Debug, PartialEq, Eq)]
pub enum InputValue {
    MoveValue(MoveValue),
    String(String),
}

/// Mathematical mirror of `MoveValue`: strings become character
/// sequences and vectors become sequences, so contracts can speak of
/// values extensionally.
#[verifier::ext_equal]
pub enum ValueModel {
    U8(u8),
    U16(u16),
    U32(u32),
    U64(u64),
    U128(u128),
    U256(Seq<char>),
    Bool(bool),
    Address(Seq<char>),
    Signer(Seq<char>),
    Vector(Seq<ValueModel>),
    Struct(StructModel),
    Variant(Seq<char>),
}

/// Mathematical mirror of `MoveStruct`.
#[verifier::ext_equal]
pub struct StructModel {
    pub type_: Seq<char>,
    pub fields: Seq<(Seq<char>, ValueModel)>,
}

/// Mathematical mirror of `InputValue`.
#[verifier::ext_equal]
pub enum InputModel {
    MoveValue(ValueModel),
    String(Seq<char>),
}

impl MoveValue {
    /// The mathematical value this runtime value stands for.
    pub open spec fn model(self) -> ValueModel
        decreases self,
        via Self::model_decreases
    {
        match self {
            MoveValue::U8(n) => ValueModel::U8(n),
            MoveValue::U16(n) => ValueModel::U16(n),
            MoveValue::U32(n) => ValueModel::U32(n),
            MoveValue::U64(n) => ValueModel::U64(n),
            MoveValue::U128(n) => ValueModel::U128(n),
            MoveValue::U256(s) => ValueModel::U256(s@),
            MoveValue::Bool(b) => ValueModel::Bool(b),
            MoveValue::Address(a) => ValueModel::Address(a@),
            MoveValue::Signer(a) => ValueModel::Signer(a@),
            MoveValue::Vector(vals) => ValueModel::Vector(models_of(vals@)),
            MoveValue::Struct(s) => ValueModel::Struct(
                StructModel { type_: s.type_@, fields: field_models_of(s.fields@) },
            ),
            MoveValue::Variant(t) => ValueModel::Variant(t@),
        }
    }

    #[via_fn]
    proof fn model_decreases(self) {
        match self {
            MoveValue::Vector(vals) => {
                assert(decreases_to!(self => vals));
                assert(decreases_to!(vals => vals@));
            }
            MoveValue::Struct(s) => {
                assert(decreases_to!(self => s));
                assert(decreases_to!(s => s.fields));
                assert(decreases_to!(s.fields => s.fields@));
            }
            _ => {}
        }
    }
}

/// The mathematical values a sequence of runtime values stands for,
/// element by element and in order.
pub open spec fn models_of(s: Seq<MoveValue>) -> Seq<ValueModel>
    decreases s,
    via models_of_decreases
{
    if s.len() == 0 {
        Seq::empty()
    } else {
        seq![s[0].model()] + models_of(s.subrange(1, s.len() as int))
    }
}

#[via_fn]
proof fn models_of_decreases(s: Seq<MoveValue>) {
    broadcast use vstd::seq::group_seq_axioms;

    if s.len() != 0 {
        assert(decreases_to!(s => s[0]));
        vstd::seq::axiom_seq_subrange_decreases(s, 1, s.len() as int);
    }
}

/// The mathematical members a sequence of named runtime values stands
/// for, element by element and in order.
pub open spec fn field_models_of(s: Seq<(String, MoveValue)>) -> Seq<(Seq<char>, ValueModel)>
    decreases s,
    via field_models_of_decreases
{
    if s.len() == 0 {
        Seq::empty()
    } else {
        seq![(s[0].0@, s[0].1.model())] + field_models_of(s.subrange(1, s.len() as int))
    }
}

#[via_fn]
proof fn field_models_of_decreases(s: Seq<(String, MoveValue)>) {
    broadcast use vstd::seq::group_seq_axioms;

    if s.len() != 0 {
        assert(decreases_to!(s => s[0]));
        assert(decreases_to!(s[0] => s[0].1));
        vstd::seq::axiom_seq_subrange_decreases(s, 1, s.len() as int);
    }
}

/// How `models_of` reads element by element: the sequences have equal
/// length and corresponding entries are the models of the originals.
pub proof fn lemma_models_of(s: Seq<MoveValue>)
    ensures
        models_of(s).len() == s.len(),
        forall|i: int| 0 <= i < s.len() ==> #[trigger] models_of(s)[i] == s[i].model(),
    decreases s.len(),
{
    if s.len() != 0 {
        let tail = s.subrange(1, s.len() as int);
        lemma_models_of(tail);
        assert forall|i: int| 0 <= i < s.len() implies #[trigger] models_of(s)[i]
            == s[i].model() by {
            if i > 0 {
                assert(models_of(s)[i] == models_of(tail)[i - 1]);
                assert(tail[i - 1] == s[i]);
            }
        }
    }
}

/// How `field_models_of` reads element by element.
pub proof fn lemma_field_models_of(s: Seq<(String, MoveValue)>)
    ensures
        field_models_of(s).len() == s.len(),
        forall|i: int|
            0 <= i < s.len() ==> #[trigger] field_models_of(s)[i] == (
            s[i].0@,
            s[i].1.model(),
            ),
    decreases s.len(),
{
    if s.len() != 0 {
        let tail = s.subrange(1, s.len() as int);
        lemma_field_models_of(tail);
        assert forall|i: int| 0 <= i < s.len() implies #[trigger] field_models_of(s)[i] == (
            s[i].0@,
            s[i].1.model(),
        ) by {
            if i > 0 {
                assert(field_models_of(s)[i] == field_models_of(tail)[i - 1]);
                assert(tail[i - 1] == s[i]);
            }
        }
    }
}

impl MoveStruct {
    /// The mathematical record this runtime record stands for.
    pub open spec fn model(self) -> StructModel {
        StructModel { type_: self.type_@, fields: field_models_of(self.fields@) }
    }
}

impl InputValue {
    /// The mathematical value this argument entry stands for.
    pub open spec fn model(self) -> InputModel {
        match self {
            InputValue::MoveValue(v) => InputModel::MoveValue(v.model()),
            InputValue::String(s) => InputModel::String(s@),
        }
    }
}

} // verus!
