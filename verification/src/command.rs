//! The command dispatcher: maps a decoded request value to a reply value.
//! Requests are aggregates of bulk strings: a command name, then arguments.

use vstd::prelude::*;

use vstd::slice::slice_to_vec;
use vstd::string::StringSliceAdditionalSpecFns;

use crate::encode::push_bytes;
use crate::value::{lemma_seq_model_from, seq_model, RespValue, ValueModel};

verus! {

/// The bytes with ASCII lowercase letters raised to uppercase, all other
/// bytes unchanged.
pub open spec fn ascii_upper(s: Seq<u8>) -> Seq<u8> {
    s.map_values(
        |b: u8|
            if 97 <= b && b <= 122 {
                (b - 32) as u8
            } else {
                b
            },
    )
}

/// The reply owed to a request: `PING` earns a `PONG` status, `ECHO` earns
/// its single argument back, anything else earns a protocol-level error
/// naming what went wrong. Command names match case-insensitively.
pub open spec fn spec_handle(m: ValueModel) -> ValueModel {
    match m {
        ValueModel::Aggregate(Some(es)) => {
            if es.len() == 0 {
                ValueModel::ErrorStatus("ERR Invalid command".spec_bytes())
            } else {
                match es[0] {
                    ValueModel::BulkData(Some(cmd)) => {
                        let up = ascii_upper(cmd);
                        if up == "PING".spec_bytes() {
                            if es.len() == 1 {
                                ValueModel::SimpleStatus("PONG".spec_bytes())
                            } else {
                                ValueModel::ErrorStatus(
                                    "ERR wrong number of arguments for 'PING' command".spec_bytes(),
                                )
                            }
                        } else if up == "ECHO".spec_bytes() {
                            if es.len() != 2 {
                                ValueModel::ErrorStatus(
                                    "ERR wrong number of arguments for 'ECHO' command".spec_bytes(),
                                )
                            } else {
                                match es[1] {
                                    ValueModel::BulkData(p) => ValueModel::BulkData(p),
                                    _ => ValueModel::ErrorStatus(
                                        "ERR Invalid ECHO argument format".spec_bytes(),
                                    ),
                                }
                            }
                        } else {
                            ValueModel::ErrorStatus(
                                "ERR Unknown command '".spec_bytes() + cmd + "'".spec_bytes(),
                            )
                        }
                    },
                    _ => ValueModel::ErrorStatus("ERR Invalid command format".spec_bytes()),
                }
            }
        },
        _ => ValueModel::ErrorStatus("ERR Invalid command format".spec_bytes()),
    }
}

/// The bytes of a message literal.
fn msg(s: &str) -> (r: Vec<u8>)
    ensures
        r@ == s.spec_bytes(),
{
    slice_to_vec(s.as_bytes())
}

/// Uppercases ASCII letters in a byte string.
#[verifier::loop_isolation(false)]
fn to_upper_bytes(s: &Vec<u8>) -> (r: Vec<u8>)
    ensures
        r@ == ascii_upper(s@),
{
    let mut r: Vec<u8> = Vec::new();
    let mut i: usize = 0;
    while i < s.len()
        invariant
            0 <= i <= s@.len(),
            r@ == ascii_upper(s@.take(i as int)),
        decreases s@.len() - i,
    {
        let b = s[i];
        if 97 <= b && b <= 122 {
            r.push(b - 32);
        } else {
            r.push(b);
        }
        proof {
            assert(r@ =~= ascii_upper(s@.take(i + 1)));
        }
        i = i + 1;
    }
    proof {
        assert(s@.take(s@.len() as int) =~= s@);
    }
    r
}

/// Compares a byte vector with a byte slice.
#[verifier::loop_isolation(false)]
fn bytes_eq_slice(a: &Vec<u8>, b: &[u8]) -> (r: bool)
    ensures
        r == (a@ == b@),
{
    if a.len() != b.len() {
        return false;
    }
    let mut i: usize = 0;
    while i < a.len()
        invariant
            0 <= i <= a@.len(),
            a@.len() == b@.len(),
            forall|j: int| 0 <= j < i ==> a@[j] == b@[j],
        decreases a@.len() - i,
    {
        if a[i] != b[i] {
            return false;
        }
        i = i + 1;
    }
    proof {
        assert(a@ =~= b@);
    }
    true
}

/// A fresh copy of a byte string.
fn copy_bytes(s: &Vec<u8>) -> (r: Vec<u8>)
    ensures
        r@ == s@,
{
    let mut r: Vec<u8> = Vec::new();
    push_bytes(s, &mut r);
    proof {
        assert(Seq::<u8>::empty() + s@ =~= s@);
    }
    r
}

/// Builds the reply to a decoded request, exactly as `spec_handle` says.
pub fn handle_command(command: &RespValue) -> (r: RespValue)
    ensures
        r.model() == spec_handle(command.model()),
{
    match command {
        RespValue::Array(Some(elements)) => {
            proof {
                lemma_seq_model_from(elements@, 0);
            }
            if elements.len() == 0 {
                return RespValue::Error(msg("ERR Invalid command"));
            }
            match &elements[0] {
                RespValue::BulkString(Some(cmd)) => {
                    let up = to_upper_bytes(cmd);
                    if bytes_eq_slice(&up, "PING".as_bytes()) {
                        if elements.len() != 1 {
                            RespValue::Error(msg("ERR wrong number of arguments for 'PING' command"))
                        } else {
                            RespValue::SimpleString(msg("PONG"))
                        }
                    } else if bytes_eq_slice(&up, "ECHO".as_bytes()) {
                        if elements.len() != 2 {
                            RespValue::Error(msg("ERR wrong number of arguments for 'ECHO' command"))
                        } else {
                            match &elements[1] {
                                RespValue::BulkString(Some(arg)) => RespValue::BulkString(
                                    Some(copy_bytes(arg)),
                                ),
                                RespValue::BulkString(None) => RespValue::BulkString(None),
                                _ => RespValue::Error(msg("ERR Invalid ECHO argument format")),
                            }
                        }
                    } else {
                        let mut out = msg("ERR Unknown command '");
                        push_bytes(cmd, &mut out);
                        let quote = msg("'");
                        push_bytes(&quote, &mut out);
                        RespValue::Error(out)
                    }
                },
                _ => RespValue::Error(msg("ERR Invalid command format")),
            }
        },
        _ => RespValue::Error(msg("ERR Invalid command format")),
    }
}

} // verus!
