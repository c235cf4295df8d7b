//! The encoder: a total, structural mapping from a value to the exact byte
//! sequence the wire grammar mandates.

use vstd::prelude::*;

use crate::num::{push_dec_i64, push_digits, spec_dec_i64, spec_digits};
use crate::value::{lemma_seq_model_from, seq_model, RespValue, ValueModel};
use crate::wire::{crlf, CR, LF, TAG_ARRAY, TAG_BULK, TAG_ERROR, TAG_INTEGER, TAG_SIMPLE};

verus! {

/// The exact wire bytes of a value: tag, payload, CR LF terminators.
pub open spec fn spec_encode(m: ValueModel) -> Seq<u8>
    decreases m,
{
    match m {
        ValueModel::SimpleStatus(s) => seq![TAG_SIMPLE] + s + crlf(),
        ValueModel::ErrorStatus(s) => seq![TAG_ERROR] + s + crlf(),
        ValueModel::Integer(i) => seq![TAG_INTEGER] + spec_dec_i64(i) + crlf(),
        ValueModel::BulkData(None) => seq![TAG_BULK] + spec_dec_i64(-1) + crlf(),
        ValueModel::BulkData(Some(p)) => seq![TAG_BULK] + spec_digits(p.len() as int) + crlf()
            + p + crlf(),
        ValueModel::Aggregate(None) => seq![TAG_ARRAY] + spec_dec_i64(-1) + crlf(),
        ValueModel::Aggregate(Some(es)) => seq![TAG_ARRAY] + spec_digits(es.len() as int)
            + crlf() + spec_encode_list(es, 0),
    }
}

/// The concatenated encodings of the elements of `es` from position `i` on.
pub open spec fn spec_encode_list(es: Seq<ValueModel>, i: int) -> Seq<u8>
    decreases es, es.len() - i,
{
    if i < 0 || i >= es.len() {
        Seq::empty()
    } else {
        spec_encode(es[i]) + spec_encode_list(es, i + 1)
    }
}

/// Appends a copy of `src` to `out`.
#[verifier::loop_isolation(false)]
pub fn push_bytes(src: &Vec<u8>, out: &mut Vec<u8>)
    ensures
        final(out)@ == old(out)@ + src@,
{
    let mut i: usize = 0;
    while i < src.len()
        invariant
            0 <= i <= src.len(),
            out@ == old(out)@ + src@.take(i as int),
        decreases src.len() - i,
    {
        out.push(src[i]);
        proof {
            assert(out@ =~= old(out)@ + src@.take(i + 1));
        }
        i = i + 1;
    }
    proof {
        assert(old(out)@ + src@.take(src@.len() as int) =~= old(out)@ + src@);
    }
}

/// Appends the encoding of `v` to `out`.
#[verifier::loop_isolation(false)]
fn push_value(v: &RespValue, out: &mut Vec<u8>)
    ensures
        final(out)@ == old(out)@ + spec_encode(v.model()),
    decreases v,
{
    match v {
        RespValue::SimpleString(s) => {
            out.push(TAG_SIMPLE);
            push_bytes(s, out);
            out.push(CR);
            out.push(LF);
            proof {
                assert(out@ =~= old(out)@ + spec_encode(v.model()));
            }
        },
        RespValue::Error(s) => {
            out.push(TAG_ERROR);
            push_bytes(s, out);
            out.push(CR);
            out.push(LF);
            proof {
                assert(out@ =~= old(out)@ + spec_encode(v.model()));
            }
        },
        RespValue::Integer(i) => {
            out.push(TAG_INTEGER);
            push_dec_i64(*i, out);
            out.push(CR);
            out.push(LF);
            proof {
                assert(out@ =~= old(out)@ + spec_encode(v.model()));
            }
        },
        RespValue::BulkString(None) => {
            out.push(TAG_BULK);
            push_dec_i64(-1, out);
            out.push(CR);
            out.push(LF);
            proof {
                assert(out@ =~= old(out)@ + spec_encode(v.model()));
            }
        },
        RespValue::BulkString(Some(p)) => {
            out.push(TAG_BULK);
            push_digits(p.len() as u64, out);
            out.push(CR);
            out.push(LF);
            push_bytes(p, out);
            out.push(CR);
            out.push(LF);
            proof {
                assert(out@ =~= old(out)@ + spec_encode(v.model()));
            }
        },
        RespValue::Array(None) => {
            out.push(TAG_ARRAY);
            push_dec_i64(-1, out);
            out.push(CR);
            out.push(LF);
            proof {
                assert(out@ =~= old(out)@ + spec_encode(v.model()));
            }
        },
        RespValue::Array(Some(elems)) => {
            out.push(TAG_ARRAY);
            push_digits(elems.len() as u64, out);
            out.push(CR);
            out.push(LF);
            let ghost es = seq_model(elems@);
            proof {
                lemma_seq_model_from(elems@, 0);
                assert(out@ + spec_encode_list(es, 0) =~= old(out)@ + spec_encode(v.model()));
            }
            let mut k: usize = 0;
            while k < elems.len()
                invariant
                    0 <= k <= elems.len(),
                    out@ + spec_encode_list(es, k as int) == old(out)@ + spec_encode(v.model()),
                decreases elems.len() - k,
            {
                let ghost out_before = out@;
                push_value(&elems[k], out);
                proof {
                    assert(elems@[k as int].model() == es[k as int]);
                    assert(out@ + spec_encode_list(es, k + 1) =~= out_before
                        + spec_encode_list(es, k as int));
                }
                k = k + 1;
            }
            proof {
                assert(out@ + spec_encode_list(es, elems@.len() as int) =~= out@);
            }
        },
    }
}

impl RespValue {
    /// The exact byte sequence that this value denotes on the wire. Total:
    /// every value has an encoding, and the bytes are a function of the value
    /// alone.
    pub fn serialize(&self) -> (out: Vec<u8>)
        ensures
            out@ == spec_encode(self.model()),
    {
        let mut out: Vec<u8> = Vec::new();
        push_value(self, &mut out);
        proof {
            assert(out@ =~= spec_encode(self.model()));
        }
        out
    }
}

} // verus!
