use vstd::prelude::*;
use vstd::string::StringExecFns;
use crate::digits::{dec_of, digit_char, u128_to_decimal, u64_to_decimal};
use crate::doc::{
    doc_models_of, lemma_doc_models_of, lemma_member_models_of, member_models_of, DocModel,
    Document,
};
use crate::value::{
    field_models_of, lemma_field_models_of, lemma_models_of, models_of, InputModel, InputValue,
    MoveValue, StructModel, ValueModel,
};

verus! {

/// A value claimed to be a byte vector was not one: some element is not
/// an 8-bit unsigned integer.
#[derive(Clone, Copy, Debug, PartialEq, Eq, Structural)]
pub struct MalformedValue;

/// The character for one hexadecimal digit, lower case.
pub open spec fn hex_digit_char(d: int) -> char {
    if d < 10 {
        digit_char(d)
    } else if d == 10 {
        'a'
    } else if d == 11 {
        'b'
    } else if d == 12 {
        'c'
    } else if d == 13 {
        'd'
    } else if d == 14 {
        'e'
    } else {
        'f'
    }
}

/// The lowercase hex rendering of a byte string: two digits per byte,
/// high nibble first, in input order.
pub open spec fn hex_of(bytes: Seq<u8>) -> Seq<char>
    decreases bytes.len(),
{
    if bytes.len() == 0 {
        Seq::empty()
    } else {
        seq![
            hex_digit_char(bytes[0] as int / 16),
            hex_digit_char(bytes[0] as int % 16),
        ] + hex_of(bytes.subrange(1, bytes.len() as int))
    }
}

/// Relies on `hex::encode`: each input byte becomes two lowercase hex
/// digits, high nibble first, in input order.
#[verifier::external_body]
fn hex_encode(bytes: &Vec<u8>) -> (r: String)
    ensures
        r@ == hex_of(bytes@),
{
    hex::encode(bytes)
}

/// Every element is an 8-bit unsigned integer.
pub open spec fn all_u8(elems: Seq<ValueModel>) -> bool {
    forall|i: int| 0 <= i < elems.len() ==> elems[i] is U8
}

/// The byte-vector classification: non-empty and homogeneously 8-bit
/// unsigned. Such vectors are rendered as `0x`-prefixed hex strings.
pub open spec fn is_byte_vector(elems: Seq<ValueModel>) -> bool {
    elems.len() > 0 && all_u8(elems)
}

/// The bytes held by a homogeneous 8-bit vector.
pub open spec fn bytes_of(elems: Seq<ValueModel>) -> Seq<u8> {
    Seq::new(
        elems.len(),
        |i: int|
            match elems[i] {
                ValueModel::U8(b) => b,
                _ => 0u8,
            },
    )
}

/// The document a value encodes to.
///
/// Integers up to 32 bits become numbers; wider integers become their
/// decimal strings, so no precision is lost in a JSON number type.
/// A byte vector becomes a `0x`-prefixed lowercase hex string, any
/// other vector an array. A record becomes its flat field map, or under
/// the v2 schema an object carrying the type tag and the field map.
/// A variant keeps only its tag, as text.
pub open spec fn doc_of_value(v: ValueModel, v2: bool) -> DocModel
    decreases v,
    via doc_of_value_decreases
{
    match v {
        ValueModel::U8(n) => DocModel::Number(n as u64),
        ValueModel::U16(n) => DocModel::Number(n as u64),
        ValueModel::U32(n) => DocModel::Number(n as u64),
        ValueModel::U64(n) => DocModel::Text(dec_of(n as int)),
        ValueModel::U128(n) => DocModel::Text(dec_of(n as int)),
        ValueModel::U256(s) => DocModel::Text(s),
        ValueModel::Bool(b) => DocModel::Bool(b),
        ValueModel::Address(a) => DocModel::Text(a),
        ValueModel::Signer(a) => DocModel::Text(a),
        ValueModel::Vector(elems) => if is_byte_vector(elems) {
            DocModel::Text(seq!['0', 'x'] + hex_of(bytes_of(elems)))
        } else {
            DocModel::Array(docs_of_values(elems, v2))
        },
        ValueModel::Struct(s) => if v2 {
            DocModel::Object(
                seq![
                    ("type"@, DocModel::Text(s.type_)),
                    ("fields"@, DocModel::Object(members_of_fields(s.fields, v2))),
                ],
            )
        } else {
            DocModel::Object(members_of_fields(s.fields, v2))
        },
        ValueModel::Variant(t) => DocModel::Text(t),
    }
}

#[via_fn]
proof fn doc_of_value_decreases(v: ValueModel, v2: bool) {
    match v {
        ValueModel::Vector(elems) => {
            assert(decreases_to!(v => elems));
        }
        ValueModel::Struct(s) => {
            assert(decreases_to!(v => s));
            assert(decreases_to!(s => s.fields));
        }
        _ => {}
    }
}

/// The documents a sequence of values encodes to, in order.
pub open spec fn docs_of_values(s: Seq<ValueModel>, v2: bool) -> Seq<DocModel>
    decreases s,
    via docs_of_values_decreases
{
    if s.len() == 0 {
        Seq::empty()
    } else {
        seq![doc_of_value(s[0], v2)] + docs_of_values(s.subrange(1, s.len() as int), v2)
    }
}

#[via_fn]
proof fn docs_of_values_decreases(s: Seq<ValueModel>, v2: bool) {
    broadcast use vstd::seq::group_seq_axioms;

    if s.len() != 0 {
        assert(decreases_to!(s => s[0]));
        vstd::seq::axiom_seq_subrange_decreases(s, 1, s.len() as int);
    }
}

/// The object members a sequence of named values encodes to, in order.
pub open spec fn members_of_fields(s: Seq<(Seq<char>, ValueModel)>, v2: bool) -> Seq<
    (Seq<char>, DocModel),
>
    decreases s,
    via members_of_fields_decreases
{
    if s.len() == 0 {
        Seq::empty()
    } else {
        seq![(s[0].0, doc_of_value(s[0].1, v2))] + members_of_fields(
            s.subrange(1, s.len() as int),
            v2,
        )
    }
}

#[via_fn]
proof fn members_of_fields_decreases(s: Seq<(Seq<char>, ValueModel)>, v2: bool) {
    broadcast use vstd::seq::group_seq_axioms;

    if s.len() != 0 {
        assert(decreases_to!(s => s[0]));
        assert(decreases_to!(s[0] => s[0].1));
        vstd::seq::axiom_seq_subrange_decreases(s, 1, s.len() as int);
    }
}

/// The document an argument entry encodes to: its value's document, or
/// the placeholder text itself.
pub open spec fn doc_of_input(v: InputModel, v2: bool) -> DocModel {
    match v {
        InputModel::MoveValue(mv) => doc_of_value(mv, v2),
        InputModel::String(s) => DocModel::Text(s),
    }
}

/// How `docs_of_values` reads element by element.
pub proof fn lemma_docs_of_values(s: Seq<ValueModel>, v2: bool)
    ensures
        docs_of_values(s, v2).len() == s.len(),
        forall|i: int|
            0 <= i < s.len() ==> #[trigger] docs_of_values(s, v2)[i] == doc_of_value(s[i], v2),
    decreases s.len(),
{
    if s.len() != 0 {
        let tail = s.subrange(1, s.len() as int);
        lemma_docs_of_values(tail, v2);
        assert forall|i: int| 0 <= i < s.len() implies #[trigger] docs_of_values(s, v2)[i]
            == doc_of_value(s[i], v2) by {
            if i > 0 {
                assert(docs_of_values(s, v2)[i] == docs_of_values(tail, v2)[i - 1]);
                assert(tail[i - 1] == s[i]);
            }
        }
    }
}

/// How `members_of_fields` reads element by element.
pub proof fn lemma_members_of_fields(s: Seq<(Seq<char>, ValueModel)>, v2: bool)
    ensures
        members_of_fields(s, v2).len() == s.len(),
        forall|i: int|
            0 <= i < s.len() ==> #[trigger] members_of_fields(s, v2)[i] == (
            s[i].0,
            doc_of_value(s[i].1, v2),
            ),
    decreases s.len(),
{
    if s.len() != 0 {
        let tail = s.subrange(1, s.len() as int);
        lemma_members_of_fields(tail, v2);
        assert forall|i: int| 0 <= i < s.len() implies #[trigger] members_of_fields(s, v2)[i] == (
            s[i].0,
            doc_of_value(s[i].1, v2),
        ) by {
            if i > 0 {
                assert(members_of_fields(s, v2)[i] == members_of_fields(tail, v2)[i - 1]);
                assert(tail[i - 1] == s[i]);
            }
        }
    }
}

/// The two schema versions shape a record differently from one and the
/// same capture: the legacy schema renders the flat field map alone,
/// while v2 wraps the field map in an object that also carries the type
/// tag.
pub proof fn lemma_record_schema_versions(s: StructModel)
    ensures
        doc_of_value(ValueModel::Struct(s), false) == DocModel::Object(
            members_of_fields(s.fields, false),
        ),
        doc_of_value(ValueModel::Struct(s), true) == DocModel::Object(
            seq![
                ("type"@, DocModel::Text(s.type_)),
                ("fields"@, DocModel::Object(members_of_fields(s.fields, true))),
            ],
        ),
{
}

/// Whether a captured vector is classified as a byte vector: non-empty
/// and every element an 8-bit unsigned integer.
pub fn is_non_empty_vector_u8(vec: &Vec<MoveValue>) -> (r: bool)
    ensures
        r == is_byte_vector(models_of(vec@)),
{
    proof {
        lemma_models_of(vec@);
    }
    if vec.len() == 0 {
        return false;
    }
    let mut i: usize = 0;
    while i < vec.len()
        invariant
            i <= vec@.len(),
            forall|j: int| 0 <= j < i ==> vec@[j] is U8,
        decreases vec@.len() - i,
    {
        match &vec[i] {
            MoveValue::U8(_) => {
                i = i + 1;
            },
            _ => {
                proof {
                    lemma_models_of(vec@);
                    assert(!(models_of(vec@)[i as int] is U8));
                }
                return false;
            },
        }
    }
    proof {
        lemma_models_of(vec@);
        assert forall|j: int| 0 <= j < vec@.len() implies #[trigger] models_of(vec@)[j] is U8 by {
            assert(vec@[j] is U8);
        }
    }
    true
}

/// Extracts the bytes of a vector whose elements are all 8-bit unsigned
/// integers; reports it malformed otherwise.
pub fn vec_to_vec_u8(vec: &Vec<MoveValue>) -> (r: Result<Vec<u8>, MalformedValue>)
    ensures
        r is Ok <==> all_u8(models_of(vec@)),
        r matches Ok(bytes) ==> bytes@ == bytes_of(models_of(vec@)),
{
    proof {
        lemma_models_of(vec@);
    }
    let mut out: Vec<u8> = Vec::new();
    let mut i: usize = 0;
    while i < vec.len()
        invariant
            i <= vec@.len(),
            out@.len() == i,
            forall|j: int| 0 <= j < i ==> vec@[j] is U8,
            forall|j: int| 0 <= j < i ==> out@[j] == vec@[j]->U8_0,
        decreases vec@.len() - i,
    {
        match &vec[i] {
            MoveValue::U8(b) => {
                out.push(*b);
                i = i + 1;
            },
            _ => {
                proof {
                    lemma_models_of(vec@);
                    assert(!(models_of(vec@)[i as int] is U8));
                }
                return Err(MalformedValue);
            },
        }
    }
    proof {
        lemma_models_of(vec@);
        assert forall|j: int| 0 <= j < vec@.len() implies #[trigger] models_of(vec@)[j] is U8 by {
            assert(vec@[j] is U8);
        }
        assert(out@ =~= bytes_of(models_of(vec@)));
    }
    Ok(out)
}

/// Encodes one captured runtime value as a document, exactly
/// `doc_of_value` of its model.
pub fn move_value_to_json(val: &MoveValue, trace_v2: bool) -> (r: Document)
    ensures
        r.model() == doc_of_value(val.model(), trace_v2),
    decreases val,
{
    match val {
        MoveValue::U8(n) => Document::Number(*n as u64),
        MoveValue::U16(n) => Document::Number(*n as u64),
        MoveValue::U32(n) => Document::Number(*n as u64),
        MoveValue::U64(n) => Document::Text(u64_to_decimal(*n)),
        MoveValue::U128(n) => Document::Text(u128_to_decimal(*n)),
        MoveValue::U256(s) => Document::Text(s.clone()),
        MoveValue::Bool(b) => Document::Bool(*b),
        MoveValue::Address(a) => Document::Text(a.clone()),
        MoveValue::Signer(a) => Document::Text(a.clone()),
        MoveValue::Vector(vals) => {
            let bytes_result = vec_to_vec_u8(vals);
            match bytes_result {
                Ok(bytes) => {
                    if bytes.len() > 0 {
                        let h = hex_encode(&bytes);
                        let mut s = String::from_str("0x");
                        s.append(h.as_str());
                        proof {
                            reveal_strlit("0x");
                            assert(is_byte_vector(models_of(vals@)));
                            assert(s@ =~= seq!['0', 'x'] + hex_of(bytes_of(models_of(vals@))));
                        }
                        Document::Text(s)
                    } else {
                        proof {
                            assert(!is_byte_vector(models_of(vals@)));
                            assert(doc_models_of(Seq::<Document>::empty()) =~= Seq::<
                                DocModel,
                            >::empty());
                            assert(docs_of_values(models_of(vals@), trace_v2) =~= Seq::<
                                DocModel,
                            >::empty());
                        }
                        Document::Array(Vec::new())
                    }
                },
                Err(_) => {
                    let mut elems: Vec<Document> = Vec::new();
                    let mut i: usize = 0;
                    while i < vals.len()
                        invariant
                            i <= vals@.len(),
                            elems@.len() == i,
                            forall|j: int|
                                0 <= j < i ==> (#[trigger] elems@[j]).model() == doc_of_value(
                                    vals@[j].model(),
                                    trace_v2,
                                ),
                            val is Vector && *vals == val->Vector_0,
                        decreases vals@.len() - i,
                    {
                        proof {
                            assert(decreases_to!(*val => val->Vector_0));
                            assert(decreases_to!(*val => *vals));
                            assert(decreases_to!(*vals => vals@));
                            assert(decreases_to!(vals@ => vals@[i as int]));
                        }
                        let d = move_value_to_json(&vals[i], trace_v2);
                        elems.push(d);
                        i = i + 1;
                    }
                    proof {
                        assert(!is_byte_vector(models_of(vals@)));
                        lemma_doc_models_of(elems@);
                        lemma_models_of(vals@);
                        lemma_docs_of_values(models_of(vals@), trace_v2);
                        assert(doc_models_of(elems@) =~= docs_of_values(
                            models_of(vals@),
                            trace_v2,
                        ));
                    }
                    Document::Array(elems)
                },
            }
        },
        MoveValue::Struct(ms) => {
            let fields_doc = struct_fields_to_json(&ms.fields, trace_v2);
            if trace_v2 {
                let mut members: Vec<(String, Document)> = Vec::new();
                members.push((String::from_str("type"), Document::Text(ms.type_.clone())));
                members.push((String::from_str("fields"), fields_doc));
                proof {
                    lemma_member_models_of(members@);
                    assert(member_models_of(members@) =~= seq![
                        ("type"@, DocModel::Text(ms.type_@)),
                        (
                            "fields"@,
                            DocModel::Object(
                                members_of_fields(field_models_of(ms.fields@), trace_v2),
                            ),
                        ),
                    ]);
                }
                Document::Object(members)
            } else {
                fields_doc
            }
        },
        MoveValue::Variant(t) => Document::Text(t.clone()),
    }
}

/// Encodes the fields of a record as the flat object mapping each field
/// name to its encoded value, in declaration order.
pub fn struct_fields_to_json(fields: &Vec<(String, MoveValue)>, trace_v2: bool) -> (r: Document)
    ensures
        r.model() == DocModel::Object(members_of_fields(field_models_of(fields@), trace_v2)),
    decreases fields,
{
    let mut members: Vec<(String, Document)> = Vec::new();
    let mut i: usize = 0;
    while i < fields.len()
        invariant
            i <= fields@.len(),
            members@.len() == i,
            forall|j: int|
                0 <= j < i ==> (#[trigger] members@[j]).0@ == fields@[j].0@ && members@[j].1.model()
                    == doc_of_value(fields@[j].1.model(), trace_v2),
        decreases fields@.len() - i,
    {
        proof {
            assert(decreases_to!(*fields => fields@));
            assert(decreases_to!(fields@ => fields@[i as int]));
            assert(decreases_to!(fields@[i as int] => fields@[i as int].1));
        }
        let name = fields[i].0.clone();
        let d = move_value_to_json(&fields[i].1, trace_v2);
        members.push((name, d));
        i = i + 1;
    }
    proof {
        lemma_member_models_of(members@);
        lemma_field_models_of(fields@);
        lemma_members_of_fields(field_models_of(fields@), trace_v2);
        assert(member_models_of(members@) =~= members_of_fields(
            field_models_of(fields@),
            trace_v2,
        ));
    }
    Document::Object(members)
}

/// Encodes an argument entry: a captured value encodes as that value
/// does, a placeholder string passes through as text.
pub fn input_value_to_json(val: &InputValue, trace_v2: bool) -> (r: Document)
    ensures
        r.model() == doc_of_input(val.model(), trace_v2),
{
    match val {
        InputValue::MoveValue(mv) => move_value_to_json(mv, trace_v2),
        InputValue::String(s) => Document::Text(s.clone()),
    }
}

} // verus!
