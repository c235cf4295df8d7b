//! The decoder: a ghost-level reading of the wire grammar, byte for byte,
//! and a verified parser proved to return exactly what that reading says.

use vstd::prelude::*;

use crate::error::DecodeError;
use crate::num::{parse_i64, spec_parse_i64};
use crate::stream::ByteStream;
use crate::utf8::{check_utf8, is_utf8};
use crate::value::{lemma_seq_model_push, seq_model, RespValue, ValueModel};
use crate::wire::{CR, LF, TAG_ARRAY, TAG_BULK, TAG_ERROR, TAG_INTEGER, TAG_SIMPLE};

verus! {

/// One terminator-delimited line: the bytes before the first carriage
/// return, which must be followed at once by a line feed. Yields the line
/// and how many bytes it took, terminator included.
pub open spec fn spec_read_line(s: Seq<u8>) -> Result<(Seq<u8>, int), DecodeError>
    decreases s.len(),
{
    if s.len() == 0 {
        Err(DecodeError::UnexpectedEof)
    } else if s[0] == CR {
        if s.len() < 2 {
            Err(DecodeError::UnexpectedEof)
        } else if s[1] == LF {
            Ok((Seq::empty(), 2))
        } else {
            Err(DecodeError::MalformedTerminator)
        }
    } else {
        match spec_read_line(s.skip(1)) {
            Ok((line, n)) => Ok((seq![s[0]] + line, 1 + n)),
            Err(e) => Err(e),
        }
    }
}

/// A line that must be text: read it, then require valid UTF-8.
pub open spec fn spec_read_element(s: Seq<u8>) -> Result<(Seq<u8>, int), DecodeError> {
    match spec_read_line(s) {
        Ok((line, n)) => if is_utf8(line) {
            Ok((line, n))
        } else {
            Err(DecodeError::InvalidEncoding)
        },
        Err(e) => Err(e),
    }
}

/// What decoding one frame from the front of `s` yields: the value and how
/// many bytes the frame took, or the first error the grammar finds.
pub open spec fn spec_decode(s: Seq<u8>) -> Result<(ValueModel, int), DecodeError>
    decreases s.len(), 0int,
{
    if s.len() == 0 {
        Err(DecodeError::UnexpectedEof)
    } else {
        let tag = s[0];
        let rest = s.skip(1);
        if tag == TAG_SIMPLE {
            match spec_read_element(rest) {
                Ok((line, n)) => Ok((ValueModel::SimpleStatus(line), 1 + n)),
                Err(e) => Err(e),
            }
        } else if tag == TAG_ERROR {
            match spec_read_element(rest) {
                Ok((line, n)) => Ok((ValueModel::ErrorStatus(line), 1 + n)),
                Err(e) => Err(e),
            }
        } else if tag == TAG_INTEGER {
            match spec_read_element(rest) {
                Ok((line, n)) => match spec_parse_i64(line) {
                    Some(v) => Ok((ValueModel::Integer(v), 1 + n)),
                    None => Err(DecodeError::InvalidInteger),
                },
                Err(e) => Err(e),
            }
        } else if tag == TAG_BULK {
            match spec_read_element(rest) {
                Ok((line, n)) => match spec_parse_i64(line) {
                    Some(len) => if len == -1 {
                        Ok((ValueModel::BulkData(None), 1 + n))
                    } else if len < 0 {
                        Err(DecodeError::InvalidLength)
                    } else {
                        let after = rest.skip(n);
                        if after.len() < len {
                            Err(DecodeError::UnexpectedEof)
                        } else {
                            let payload = after.take(len);
                            let term = after.skip(len);
                            if term.len() < 2 {
                                Err(DecodeError::UnexpectedEof)
                            } else if term[0] == CR && term[1] == LF {
                                Ok((ValueModel::BulkData(Some(payload)), 1 + n + len + 2))
                            } else {
                                Err(DecodeError::MalformedTerminator)
                            }
                        }
                    },
                    None => Err(DecodeError::InvalidLength),
                },
                Err(e) => Err(e),
            }
        } else if tag == TAG_ARRAY {
            match spec_read_element(rest) {
                Ok((line, n)) => match spec_parse_i64(line) {
                    Some(count) => if count == -1 {
                        Ok((ValueModel::Aggregate(None), 1 + n))
                    } else if count < 0 {
                        Err(DecodeError::InvalidLength)
                    } else {
                        let body = rest.skip(n);
                        // a read line never runs past the stream, so `body`
                        // is strictly shorter than `s`; the test makes that
                        // visible to the termination measure
                        if body.len() < s.len() {
                            match spec_decode_list(count as nat, body) {
                                Ok((elems, n2)) => Ok(
                                    (ValueModel::Aggregate(Some(elems)), 1 + n + n2),
                                ),
                                Err(e) => Err(e),
                            }
                        } else {
                            Err(DecodeError::UnexpectedEof)
                        }
                    },
                    None => Err(DecodeError::InvalidLength),
                },
                Err(e) => Err(e),
            }
        } else {
            Err(DecodeError::UnknownType)
        }
    }
}

/// What decoding `count` consecutive frames from the front of `s` yields:
/// their values in order and the total byte count, or the first error.
pub open spec fn spec_decode_list(count: nat, s: Seq<u8>) -> Result<
    (Seq<ValueModel>, int),
    DecodeError,
>
    decreases s.len(), count + 1,
{
    if count == 0 {
        Ok((Seq::empty(), 0))
    } else {
        match spec_decode(s) {
            Ok((m, n)) => {
                // a decoded frame always takes at least one byte and never
                // runs past the stream; the test makes that visible to the
                // termination measure
                if 1 <= n <= s.len() {
                    match spec_decode_list((count - 1) as nat, s.skip(n)) {
                        Ok((ms, n2)) => Ok((seq![m] + ms, n + n2)),
                        Err(e) => Err(e),
                    }
                } else {
                    Err(DecodeError::UnexpectedEof)
                }
            },
            Err(e) => Err(e),
        }
    }
}

/// A successfully read line takes between two bytes and the whole stream.
pub proof fn lemma_read_line_bounds(s: Seq<u8>)
    ensures
        spec_read_line(s) matches Ok((line, n)) ==> 2 <= n <= s.len() && line.len() == n - 2,
    decreases s.len(),
{
    if s.len() > 0 && s[0] != CR {
        lemma_read_line_bounds(s.skip(1));
    }
}

/// A successfully decoded frame takes at least one byte and never runs past
/// the stream.
pub proof fn lemma_decode_bounds(s: Seq<u8>)
    ensures
        spec_decode(s) matches Ok((m, n)) ==> 1 <= n <= s.len(),
    decreases s.len(), 0int,
{
    if s.len() > 0 {
        let rest = s.skip(1);
        lemma_read_line_bounds(rest);
        match spec_read_element(rest) {
            Ok((line, n)) => {
                if s[0] == TAG_BULK {
                    match spec_parse_i64(line) {
                        Some(len) => {
                            if len >= 0 {
                                let after = rest.skip(n);
                                if after.len() >= len && after.skip(len).len() >= 2 {
                                    assert(after.len() == s.len() - 1 - n);
                                }
                            }
                        },
                        None => {},
                    }
                }
                if s[0] == TAG_ARRAY {
                    match spec_parse_i64(line) {
                        Some(count) => {
                            if count >= 0 {
                                let body = rest.skip(n);
                                if body.len() < s.len() {
                                    lemma_decode_list_bounds(count as nat, body);
                                }
                            }
                        },
                        None => {},
                    }
                }
            },
            Err(_) => {},
        }
    }
}

/// Decoding a list of frames consumes at most the whole stream and yields
/// exactly `count` values.
pub proof fn lemma_decode_list_bounds(count: nat, s: Seq<u8>)
    ensures
        spec_decode_list(count, s) matches Ok((ms, n)) ==> 0 <= n <= s.len() && ms.len()
            == count,
    decreases s.len(), count + 1,
{
    if count > 0 {
        lemma_decode_bounds(s);
        match spec_decode(s) {
            Ok((m, n)) => {
                if 1 <= n <= s.len() {
                    lemma_decode_list_bounds((count - 1) as nat, s.skip(n));
                }
            },
            Err(_) => {},
        }
    }
}

/// Reads one line: the bytes up to a carriage return, which must be followed
/// at once by a line feed, and the whole line must be text. Consumes the
/// terminator and nothing past it.
#[verifier::loop_isolation(false)]
pub fn read_element(input: &mut ByteStream) -> (r: Result<Vec<u8>, DecodeError>)
    requires
        old(input).wf(),
    ensures
        final(input).wf(),
        final(input).data() == old(input).data(),
        old(input).pos() <= final(input).pos(),
        match (r, spec_read_element(old(input).remaining())) {
            (Ok(line), Ok((l, n))) => line@ == l && final(input).pos() == old(input).pos() + n,
            (Err(e1), Err(e2)) => e1 == e2,
            _ => false,
        },
{
    let ghost rem0 = input.remaining();
    let ghost pos0 = input.pos();
    let mut buf: Vec<u8> = Vec::new();
    loop
        invariant
            input.wf(),
            input.data() == old(input).data(),
            pos0 <= input.pos(),
            ({
                let cur = input.remaining();
                match spec_read_line(cur) {
                    Ok((l, n)) => spec_read_line(rem0) == Ok::<(Seq<u8>, int), DecodeError>(
                        (buf@ + l, (input.pos() - pos0) + n),
                    ),
                    Err(e) => spec_read_line(rem0) == Err::<(Seq<u8>, int), DecodeError>(e),
                }
            }),
        decreases input.data().len() - input.pos(),
    {
        let ghost cur = input.remaining();
        let ghost buf_before = buf@;
        let b = match input.read_byte() {
            Ok(b) => b,
            Err(e) => {
                return Err(e);
            },
        };
        if b == CR {
            proof {
                assert(input.remaining() =~= cur.skip(1));
            }
            let b2 = match input.read_byte() {
                Ok(b2) => b2,
                Err(e) => {
                    return Err(e);
                },
            };
            proof {
                assert(cur[1] == cur.skip(1)[0]);
            }
            if b2 == LF {
                proof {
                    assert(buf@ + Seq::<u8>::empty() =~= buf@);
                }
                if check_utf8(&buf) {
                    return Ok(buf);
                } else {
                    return Err(DecodeError::InvalidEncoding);
                }
            } else {
                return Err(DecodeError::MalformedTerminator);
            }
        } else {
            buf.push(b);
            proof {
                assert(input.remaining() =~= cur.skip(1));
                match spec_read_line(cur.skip(1)) {
                    Ok((l, n)) => {
                        assert(buf_before + (seq![b] + l) =~= buf@ + l);
                    },
                    Err(_) => {},
                }
            }
        }
    }
}

/// Decodes one frame from the stream: reads the type tag, then the variant's
/// framing, recursing for aggregates. Returns exactly what the wire grammar
/// says of the unconsumed bytes, and on success leaves the stream positioned
/// at the first byte after the frame, never past it.
#[verifier::loop_isolation(false)]
pub fn parse(input: &mut ByteStream) -> (r: Result<RespValue, DecodeError>)
    requires
        old(input).wf(),
    ensures
        final(input).wf(),
        final(input).data() == old(input).data(),
        old(input).pos() <= final(input).pos(),
        match (r, spec_decode(old(input).remaining())) {
            (Ok(v), Ok((m, n))) => v.model() == m && final(input).pos() == old(input).pos()
                + n,
            (Err(e1), Err(e2)) => e1 == e2,
            _ => false,
        },
    decreases input.data().len() - input.pos(),
{
    let ghost rem0 = input.remaining();
    let ghost pos0 = input.pos();
    let tag = match input.read_byte() {
        Ok(b) => b,
        Err(e) => {
            return Err(e);
        },
    };
    let ghost rest = rem0.skip(1);
    proof {
        assert(input.remaining() =~= rest);
    }
    if tag == TAG_SIMPLE {
        match read_element(input) {
            Ok(line) => Ok(RespValue::SimpleString(line)),
            Err(e) => Err(e),
        }
    } else if tag == TAG_ERROR {
        match read_element(input) {
            Ok(line) => Ok(RespValue::Error(line)),
            Err(e) => Err(e),
        }
    } else if tag == TAG_INTEGER {
        match read_element(input) {
            Ok(line) => match parse_i64(&line) {
                Some(v) => Ok(RespValue::Integer(v)),
                None => Err(DecodeError::InvalidInteger),
            },
            Err(e) => Err(e),
        }
    } else if tag == TAG_BULK {
        let line = match read_element(input) {
            Ok(line) => line,
            Err(e) => {
                return Err(e);
            },
        };
        let ghost n_line = input.pos() - pos0 - 1;
        let len = match parse_i64(&line) {
            Some(len) => len,
            None => {
                return Err(DecodeError::InvalidLength);
            },
        };
        if len == -1 {
            return Ok(RespValue::BulkString(None));
        }
        if len < 0 {
            return Err(DecodeError::InvalidLength);
        }
        let ghost after = rest.skip(n_line);
        proof {
            lemma_read_line_bounds(rest);
            assert(input.remaining() =~= after);
        }
        let avail = input.remaining_len();
        if (len as u64) > (avail as u64) {
            return Err(DecodeError::UnexpectedEof);
        }
        let count = len as usize;
        let payload = match input.read_exact(count) {
            Ok(p) => p,
            Err(_) => {
                proof {
                    assert(false);
                }
                return Err(DecodeError::UnexpectedEof);
            },
        };
        proof {
            assert(payload@ =~= after.take(len as int));
            assert(input.remaining() =~= after.skip(len as int));
        }
        let term = match input.read_exact(2) {
            Ok(t) => t,
            Err(e) => {
                return Err(e);
            },
        };
        if term[0] == CR && term[1] == LF {
            proof {
                assert(after.skip(len as int)[0] == term@[0]);
                assert(after.skip(len as int)[1] == term@[1]);
            }
            Ok(RespValue::BulkString(Some(payload)))
        } else {
            proof {
                assert(after.skip(len as int)[0] == term@[0]);
                assert(after.skip(len as int)[1] == term@[1]);
            }
            Err(DecodeError::MalformedTerminator)
        }
    } else if tag == TAG_ARRAY {
        let line = match read_element(input) {
            Ok(line) => line,
            Err(e) => {
                return Err(e);
            },
        };
        let ghost n_line = input.pos() - pos0 - 1;
        let count = match parse_i64(&line) {
            Some(count) => count,
            None => {
                return Err(DecodeError::InvalidLength);
            },
        };
        if count == -1 {
            return Ok(RespValue::Array(None));
        }
        if count < 0 {
            return Err(DecodeError::InvalidLength);
        }
        let ghost rem_star = rest.skip(n_line);
        let ghost pos_star = input.pos();
        proof {
            lemma_read_line_bounds(rest);
            assert(input.remaining() =~= rem_star);
            assert(rem_star.len() < rem0.len());
            // the whole frame is this count line followed by `count` frames
            assert(match spec_decode_list(count as nat, rem_star) {
                Ok((ms, n2)) => spec_decode(rem0) == Ok::<(ValueModel, int), DecodeError>(
                    (ValueModel::Aggregate(Some(ms)), 1 + n_line + n2),
                ),
                Err(e) => spec_decode(rem0) == Err::<(ValueModel, int), DecodeError>(e),
            });
        }
        let mut elems: Vec<RespValue> = Vec::new();
        let mut i: i64 = 0;
        proof {
            match spec_decode_list(count as nat, rem_star) {
                Ok((ms, n2)) => {
                    assert(seq_model(elems@) + ms =~= ms);
                },
                Err(_) => {},
            }
        }
        while i < count
            invariant
                0 <= i <= count,
                input.wf(),
                input.data() == old(input).data(),
                pos_star <= input.pos(),
                elems@.len() == i,
                match spec_decode_list((count - i) as nat, input.remaining()) {
                    Ok((ms, n2)) => spec_decode_list(count as nat, rem_star) == Ok::<
                        (Seq<ValueModel>, int),
                        DecodeError,
                    >((seq_model(elems@) + ms, (input.pos() - pos_star) + n2)),
                    Err(e) => spec_decode_list(count as nat, rem_star) == Err::<
                        (Seq<ValueModel>, int),
                        DecodeError,
                    >(e),
                },
            decreases count - i,
        {
            let ghost rem_i = input.remaining();
            let ghost pos_i = input.pos();
            let ghost elems_before = elems@;
            match parse(input) {
                Err(e) => {
                    return Err(e);
                },
                Ok(v) => {
                    proof {
                        lemma_decode_bounds(rem_i);
                    }
                    elems.push(v);
                    proof {
                        lemma_seq_model_push(elems_before, v);
                        match spec_decode(rem_i) {
                            Ok((m, n)) => {
                                assert(input.remaining() =~= rem_i.skip(n));
                                match spec_decode_list((count - i - 1) as nat, rem_i.skip(n)) {
                                    Ok((ms, n2)) => {
                                        assert(seq_model(elems_before) + (seq![m] + ms)
                                            =~= seq_model(elems@) + ms);
                                    },
                                    Err(_) => {},
                                }
                            },
                            Err(_) => {},
                        }
                    }
                    i = i + 1;
                },
            }
        }
        proof {
            match spec_decode_list(count as nat, rem_star) {
                Ok((ms, n2)) => {
                    assert(seq_model(elems@) + Seq::<ValueModel>::empty() =~= seq_model(
                        elems@,
                    ));
                },
                Err(_) => {},
            }
        }
        Ok(RespValue::Array(Some(elems)))
    } else {
        Err(DecodeError::UnknownType)
    }
}

} // verus!
