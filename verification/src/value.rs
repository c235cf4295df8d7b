//! The protocol value model: a closed set of five variants, recursive through
//! aggregates, with byte-sequence payloads (the wire format is binary-safe).

use vstd::prelude::*;

use crate::utf8::is_utf8;
use crate::wire::{CR, LF};

verus! {

/// One protocol value. Payloads are raw bytes; `BulkString` and `Array`
/// distinguish an explicit absence marker (`None`) from an empty payload.
#[derive(Debug)]
pub enum RespValue {
    SimpleString(Vec<u8>),
    Error(Vec<u8>),
    Integer(i64),
    BulkString(Option<Vec<u8>>),
    Array(Option<Vec<RespValue>>),
}

/// The mathematical model of a protocol value, used by all contracts.
pub enum ValueModel {
    SimpleStatus(Seq<u8>),
    ErrorStatus(Seq<u8>),
    Integer(int),
    BulkData(Option<Seq<u8>>),
    Aggregate(Option<Seq<ValueModel>>),
}

impl RespValue {
    /// The mathematical value this `RespValue` stands for.
    pub open spec fn model(&self) -> ValueModel
        decreases self,
    {
        match self {
            RespValue::SimpleString(s) => ValueModel::SimpleStatus(s@),
            RespValue::Error(s) => ValueModel::ErrorStatus(s@),
            RespValue::Integer(i) => ValueModel::Integer(*i as int),
            RespValue::BulkString(p) => ValueModel::BulkData(match p {
                Some(b) => Some(b@),
                None => None,
            }),
            RespValue::Array(a) => ValueModel::Aggregate(match a {
                Some(elems) => Some(seq_model_from(elems@, 0)),
                None => None,
            }),
        }
    }
}

/// The models of the elements of `s` from position `i` on, in order.
pub open spec fn seq_model_from(s: Seq<RespValue>, i: int) -> Seq<ValueModel>
    decreases s, s.len() - i,
{
    if i < 0 || i >= s.len() {
        Seq::empty()
    } else {
        seq![s[i].model()] + seq_model_from(s, i + 1)
    }
}

/// The models of a sequence of values, element by element.
pub open spec fn seq_model(s: Seq<RespValue>) -> Seq<ValueModel> {
    seq_model_from(s, 0)
}

/// `seq_model_from` walks the elements one by one.
pub proof fn lemma_seq_model_from(s: Seq<RespValue>, i: int)
    requires
        0 <= i <= s.len(),
    ensures
        seq_model_from(s, i).len() == s.len() - i,
        forall|j: int|
            0 <= j < s.len() - i ==> #[trigger] seq_model_from(s, i)[j] == s[i + j].model(),
    decreases s.len() - i,
{
    if i < s.len() {
        lemma_seq_model_from(s, i + 1);
    }
}

/// Appending one value appends its model.
pub proof fn lemma_seq_model_push(s: Seq<RespValue>, v: RespValue)
    ensures
        seq_model(s.push(v)) == seq_model(s) + seq![v.model()],
{
    lemma_seq_model_from(s.push(v), 0);
    lemma_seq_model_from(s, 0);
    assert(seq_model(s.push(v)) =~= seq_model(s) + seq![v.model()]);
}

/// A status or error line: text with no terminator byte in it.
pub open spec fn line_ok(s: Seq<u8>) -> bool {
    is_utf8(s) && forall|i: int| 0 <= i < s.len() ==> (#[trigger] s[i]) != CR && s[i] != LF
}

/// A value the protocol can carry: status and error text holds no carriage
/// return or line feed and is valid UTF-8; integers, payload lengths and
/// element counts fit in a signed 64-bit field.
pub open spec fn well_formed(m: ValueModel) -> bool
    decreases m,
{
    match m {
        ValueModel::SimpleStatus(s) => line_ok(s),
        ValueModel::ErrorStatus(s) => line_ok(s),
        ValueModel::Integer(i) => i64::MIN <= i <= i64::MAX,
        ValueModel::BulkData(p) => match p {
            Some(b) => b.len() <= i64::MAX,
            None => true,
        },
        ValueModel::Aggregate(a) => match a {
            Some(es) => es.len() <= i64::MAX && well_formed_from(es, 0),
            None => true,
        },
    }
}

/// All the elements of `es` from position `i` on are well formed.
pub open spec fn well_formed_from(es: Seq<ValueModel>, i: int) -> bool
    decreases es, es.len() - i,
{
    if i < 0 || i >= es.len() {
        true
    } else {
        well_formed(es[i]) && well_formed_from(es, i + 1)
    }
}

/// Compares two byte vectors.
#[verifier::loop_isolation(false)]
fn bytes_eq(a: &Vec<u8>, b: &Vec<u8>) -> (r: bool)
    ensures
        r == (a@ == b@),
{
    if a.len() != b.len() {
        return false;
    }
    let mut i: usize = 0;
    while i < a.len()
        invariant
            0 <= i <= a@.len(),
            a@.len() == b@.len(),
            forall|j: int| 0 <= j < i ==> a@[j] == b@[j],
        decreases a@.len() - i,
    {
        if a[i] != b[i] {
            return false;
        }
        i = i + 1;
    }
    proof {
        assert(a@ =~= b@);
    }
    true
}

/// Structural equality of two values: same variant and, recursively, equal
/// payload — which is exactly equality of their models.
#[verifier::loop_isolation(false)]
fn value_eq(a: &RespValue, b: &RespValue) -> (r: bool)
    ensures
        r == (a.model() == b.model()),
    decreases a,
{
    match (a, b) {
        (RespValue::SimpleString(x), RespValue::SimpleString(y)) => bytes_eq(x, y),
        (RespValue::Error(x), RespValue::Error(y)) => bytes_eq(x, y),
        (RespValue::Integer(x), RespValue::Integer(y)) => *x == *y,
        (RespValue::BulkString(None), RespValue::BulkString(None)) => true,
        (RespValue::BulkString(Some(x)), RespValue::BulkString(Some(y))) => bytes_eq(x, y),
        (RespValue::Array(None), RespValue::Array(None)) => true,
        (RespValue::Array(Some(xs)), RespValue::Array(Some(ys))) => {
            proof {
                lemma_seq_model_from(xs@, 0);
                lemma_seq_model_from(ys@, 0);
            }
            if xs.len() != ys.len() {
                return false;
            }
            let mut k: usize = 0;
            while k < xs.len()
                invariant
                    0 <= k <= xs@.len(),
                    xs@.len() == ys@.len(),
                    forall|j: int| 0 <= j < k ==> #[trigger] xs@[j].model() == ys@[j].model(),
                decreases xs@.len() - k,
            {
                if !value_eq(&xs[k], &ys[k]) {
                    proof {
                        assert(seq_model(xs@)[k as int] == xs@[k as int].model());
                        assert(seq_model(ys@)[k as int] == ys@[k as int].model());
                    }
                    return false;
                }
                k = k + 1;
            }
            proof {
                assert(seq_model(xs@) =~= seq_model(ys@));
            }
            true
        },
        _ => false,
    }
}

impl PartialEq for RespValue {
    /// Equality is structural: same variant, recursively equal payload.
    fn eq(&self, other: &RespValue) -> (r: bool) {
        value_eq(self, other)
    }
}

impl vstd::std_specs::cmp::PartialEqSpecImpl for RespValue {
    open spec fn obeys_eq_spec() -> bool {
        true
    }

    open spec fn eq_spec(&self, other: &RespValue) -> bool {
        self.model() == other.model()
    }
}

} // verus!
