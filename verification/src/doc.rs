use vstd::prelude::*;

verus! {

/// The structured output representation: a JSON-like document tree.
///
/// Object members keep their insertion order; numbers only ever carry
/// integers narrow enough (at most 32 bits) to survive a JSON number
/// type exactly, wider integers travel as text.
#[derive(Debug, PartialEq, Eq)]
pub enum Document {
    Bool(bool),
    Number(u64),
    Text(String),
    Array(Vec<Document>),
    Object(Vec<(String, Document)>),
}

/// Mathematical mirror of `Document`.
#[verifier::ext_equal]
pub enum DocModel {
    Bool(bool),
    Number(u64),
    Text(Seq<char>),
    Array(Seq<DocModel>),
    Object(Seq<(Seq<char>, DocModel)>),
}

impl Document {
    /// The mathematical document this tree stands for.
    pub open spec fn model(self) -> DocModel
        decreases self,
        via Self::model_decreases
    {
        match self {
            Document::Bool(b) => DocModel::Bool(b),
            Document::Number(n) => DocModel::Number(n),
            Document::Text(s) => DocModel::Text(s@),
            Document::Array(elems) => DocModel::Array(doc_models_of(elems@)),
            Document::Object(members) => DocModel::Object(member_models_of(members@)),
        }
    }

    #[via_fn]
    proof fn model_decreases(self) {
        match self {
            Document::Array(elems) => {
                assert(decreases_to!(self => elems));
                assert(decreases_to!(elems => elems@));
            }
            Document::Object(members) => {
                assert(decreases_to!(self => members));
                assert(decreases_to!(members => members@));
            }
            _ => {}
        }
    }
}

/// The mathematical documents a sequence of trees stands for, element
/// by element and in order.
pub open spec fn doc_models_of(s: Seq<Document>) -> Seq<DocModel>
    decreases s,
    via doc_models_of_decreases
{
    if s.len() == 0 {
        Seq::empty()
    } else {
        seq![s[0].model()] + doc_models_of(s.subrange(1, s.len() as int))
    }
}

#[via_fn]
proof fn doc_models_of_decreases(s: Seq<Document>) {
    broadcast use vstd::seq::group_seq_axioms;

    if s.len() != 0 {
        assert(decreases_to!(s => s[0]));
        vstd::seq::axiom_seq_subrange_decreases(s, 1, s.len() as int);
    }
}

/// The mathematical members a sequence of named trees stands for,
/// element by element and in order.
pub open spec fn member_models_of(s: Seq<(String, Document)>) -> Seq<(Seq<char>, DocModel)>
    decreases s,
    via member_models_of_decreases
{
    if s.len() == 0 {
        Seq::empty()
    } else {
        seq![(s[0].0@, s[0].1.model())] + member_models_of(s.subrange(1, s.len() as int))
    }
}

#[via_fn]
proof fn member_models_of_decreases(s: Seq<(String, Document)>) {
    broadcast use vstd::seq::group_seq_axioms;

    if s.len() != 0 {
        assert(decreases_to!(s => s[0]));
        assert(decreases_to!(s[0] => s[0].1));
        vstd::seq::axiom_seq_subrange_decreases(s, 1, s.len() as int);
    }
}

/// How `doc_models_of` reads element by element.
pub proof fn lemma_doc_models_of(s: Seq<Document>)
    ensures
        doc_models_of(s).len() == s.len(),
        forall|i: int| 0 <= i < s.len() ==> #[trigger] doc_models_of(s)[i] == s[i].model(),
    decreases s.len(),
{
    if s.len() != 0 {
        let tail = s.subrange(1, s.len() as int);
        lemma_doc_models_of(tail);
        assert forall|i: int| 0 <= i < s.len() implies #[trigger] doc_models_of(s)[i]
            == s[i].model() by {
            if i > 0 {
                assert(doc_models_of(s)[i] == doc_models_of(tail)[i - 1]);
                assert(tail[i - 1] == s[i]);
            }
        }
    }
}

/// How `member_models_of` reads element by element.
pub proof fn lemma_member_models_of(s: Seq<(String, Document)>)
    ensures
        member_models_of(s).len() == s.len(),
        forall|i: int|
            0 <= i < s.len() ==> #[trigger] member_models_of(s)[i] == (
            s[i].0@,
            s[i].1.model(),
            ),
    decreases s.len(),
{
    if s.len() != 0 {
        let tail = s.subrange(1, s.len() as int);
        lemma_member_models_of(tail);
        assert forall|i: int| 0 <= i < s.len() implies #[trigger] member_models_of(s)[i] == (
            s[i].0@,
            s[i].1.model(),
        ) by {
            if i > 0 {
                assert(member_models_of(s)[i] == member_models_of(tail)[i - 1]);
                assert(tail[i - 1] == s[i]);
            }
        }
    }
}

} // verus!
