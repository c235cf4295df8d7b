//! The codec's central laws: decoding an encoding gives the value back and
//! consumes exactly the encoding, and encoding is a function of the value
//! alone.

use vstd::prelude::*;

use crate::decode::{lemma_decode_bounds, spec_decode, spec_decode_list, spec_read_line};
use crate::encode::{spec_encode, spec_encode_list};
use crate::error::DecodeError;
use crate::num::{lemma_dec_i64_parses, spec_dec_i64};
use crate::utf8::lemma_ascii_is_utf8;
use crate::value::{well_formed, well_formed_from, RespValue, ValueModel};
use crate::wire::{crlf, CR};

verus! {

/// A line without a carriage return, written out with its terminator, reads
/// back as itself, whatever follows it.
pub proof fn lemma_read_line_round_trip(line: Seq<u8>, tail: Seq<u8>)
    requires
        forall|i: int| 0 <= i < line.len() ==> (#[trigger] line[i]) != CR,
    ensures
        spec_read_line(line + crlf() + tail) == Ok::<(Seq<u8>, int), DecodeError>(
            (line, line.len() as int + 2),
        ),
    decreases line.len(),
{
    let s = line + crlf() + tail;
    if line.len() == 0 {
        assert(s[0] == CR && s[1] == 10);
        assert(line =~= Seq::<u8>::empty());
    } else {
        assert(s[0] == line[0]);
        assert(s.skip(1) =~= line.skip(1) + crlf() + tail);
        lemma_read_line_round_trip(line.skip(1), tail);
        assert(seq![line[0]] + line.skip(1) =~= line);
    }
}

/// A signed 64-bit integer's wire spelling, with its terminator, reads back
/// as a line that parses to the same value.
proof fn lemma_dec_i64_line(i: int, tail: Seq<u8>)
    requires
        i64::MIN <= i <= i64::MAX,
    ensures
        spec_read_line(spec_dec_i64(i) + crlf() + tail) == Ok::<(Seq<u8>, int), DecodeError>(
            (spec_dec_i64(i), spec_dec_i64(i).len() as int + 2),
        ),
        crate::utf8::is_utf8(spec_dec_i64(i)),
        crate::num::spec_parse_i64(spec_dec_i64(i)) == Some(i),
{
    lemma_dec_i64_parses(i);
    lemma_ascii_is_utf8(spec_dec_i64(i));
    lemma_read_line_round_trip(spec_dec_i64(i), tail);
}

/// Round trip: decoding the encoding of a well-formed value yields exactly
/// that value and consumes exactly the encoding, whatever bytes follow it.
pub proof fn lemma_round_trip(m: ValueModel, tail: Seq<u8>)
    requires
        well_formed(m),
    ensures
        spec_decode(spec_encode(m) + tail) == Ok::<(ValueModel, int), DecodeError>(
            (m, spec_encode(m).len() as int),
        ),
    decreases m,
{
    let enc = spec_encode(m);
    let s = enc + tail;
    match m {
        ValueModel::SimpleStatus(line) => {
            assert(s[0] == crate::wire::TAG_SIMPLE);
            assert(s.skip(1) =~= line + crlf() + tail);
            lemma_read_line_round_trip(line, tail);
        },
        ValueModel::ErrorStatus(line) => {
            assert(s[0] == crate::wire::TAG_ERROR);
            assert(s.skip(1) =~= line + crlf() + tail);
            lemma_read_line_round_trip(line, tail);
        },
        ValueModel::Integer(i) => {
            assert(s[0] == crate::wire::TAG_INTEGER);
            assert(s.skip(1) =~= spec_dec_i64(i) + crlf() + tail);
            lemma_dec_i64_line(i, tail);
        },
        ValueModel::BulkData(None) => {
            assert(s[0] == crate::wire::TAG_BULK);
            assert(s.skip(1) =~= spec_dec_i64(-1) + crlf() + tail);
            lemma_dec_i64_line(-1, tail);
        },
        ValueModel::BulkData(Some(p)) => {
            let len = p.len() as int;
            assert(spec_dec_i64(len) == crate::num::spec_digits(len));
            assert(s[0] == crate::wire::TAG_BULK);
            let inner_tail = p + crlf() + tail;
            assert(s.skip(1) =~= spec_dec_i64(len) + crlf() + inner_tail);
            lemma_dec_i64_line(len, inner_tail);
            let n: int = spec_dec_i64(len).len() as int + 2;
            let after = s.skip(1).skip(n);
            assert(after =~= p + crlf() + tail);
            assert(after.take(len) =~= p);
            assert(after.skip(len) =~= crlf() + tail);
            assert(after.skip(len)[0] == CR && after.skip(len)[1] == 10);
        },
        ValueModel::Aggregate(None) => {
            assert(s[0] == crate::wire::TAG_ARRAY);
            assert(s.skip(1) =~= spec_dec_i64(-1) + crlf() + tail);
            lemma_dec_i64_line(-1, tail);
        },
        ValueModel::Aggregate(Some(es)) => {
            let count = es.len() as int;
            assert(spec_dec_i64(count) == crate::num::spec_digits(count));
            assert(s[0] == crate::wire::TAG_ARRAY);
            let inner_tail = spec_encode_list(es, 0) + tail;
            assert(s.skip(1) =~= spec_dec_i64(count) + crlf() + inner_tail);
            lemma_dec_i64_line(count, inner_tail);
            let n: int = spec_dec_i64(count).len() as int + 2;
            let body = s.skip(1).skip(n);
            assert(body =~= spec_encode_list(es, 0) + tail);
            assert(body.len() < s.len());
            lemma_round_trip_list(es, 0, tail);
            assert(es.skip(0) =~= es);
        },
    }
}

/// Round trip for the elements of an aggregate, from position `i` on.
proof fn lemma_round_trip_list(es: Seq<ValueModel>, i: int, tail: Seq<u8>)
    requires
        0 <= i <= es.len(),
        well_formed_from(es, i),
    ensures
        spec_decode_list((es.len() - i) as nat, spec_encode_list(es, i) + tail) == Ok::<
            (Seq<ValueModel>, int),
            DecodeError,
        >((es.skip(i), spec_encode_list(es, i).len() as int)),
    decreases es, es.len() - i,
{
    if i == es.len() {
        assert(spec_encode_list(es, i) + tail =~= tail);
        assert(es.skip(i) =~= Seq::<ValueModel>::empty());
    } else {
        let head = spec_encode(es[i]);
        let rest = spec_encode_list(es, i + 1);
        let s = spec_encode_list(es, i) + tail;
        assert(s =~= head + (rest + tail));
        lemma_round_trip(es[i], rest + tail);
        lemma_decode_bounds(s);
        let n = head.len() as int;
        assert(s.skip(n) =~= rest + tail);
        lemma_round_trip_list(es, i + 1, tail);
        assert(seq![es[i]] + es.skip(i + 1) =~= es.skip(i));
    }
}

/// Decoding a stream that holds exactly the encoding of a well-formed value
/// yields that value, consuming the whole stream.
pub proof fn lemma_round_trip_exact(m: ValueModel)
    requires
        well_formed(m),
    ensures
        spec_decode(spec_encode(m)) == Ok::<(ValueModel, int), DecodeError>(
            (m, spec_encode(m).len() as int),
        ),
{
    lemma_round_trip(m, Seq::empty());
    assert(spec_encode(m) + Seq::<u8>::empty() =~= spec_encode(m));
}

/// Encoding is deterministic: the bytes are a function of the value alone,
/// so encoding the same value twice gives identical byte sequences.
pub proof fn lemma_encode_deterministic(v: RespValue, first: Seq<u8>, second: Seq<u8>)
    requires
        first == spec_encode(v.model()),
        second == spec_encode(v.model()),
    ensures
        first == second,
{
}

} // verus!
