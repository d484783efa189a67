use vstd::prelude::*;
use vstd::slice::slice_subrange;

verus! {

#[verifier::external_type_specification]
#[verifier::external_body]
pub struct ExDecodeError(prost::DecodeError);

/// The field number of the direction code in an input message.
pub const DIRECTION_FIELD: u32 = 1;

/// What `prost::encoding::decode_key` reads at the front of `bytes`: the
/// field number, the wire type as its number, and how many bytes follow the
/// key; `None` where it fails.
pub uninterp spec fn key_read(bytes: Seq<u8>) -> Option<(u32, u8, nat)>;

/// What `prost::encoding::int32::merge` reads at the front of `bytes` for a
/// field of wire type `wire`: the value, and how many bytes follow it;
/// `None` where it fails.
pub uninterp spec fn int32_read(wire: u8, bytes: Seq<u8>) -> Option<(i32, nat)>;

/// How many bytes `prost::encoding::skip_field` leaves of `bytes` after the
/// value of field `tag` with wire type `wire`; `None` where it fails.
pub uninterp spec fn skip_read(wire: u8, tag: u32, bytes: Seq<u8>) -> Option<nat>;

/// `prost::encoding::decode_key` on a byte slice: the key at its front and
/// the number of bytes left behind it. A key takes at least one byte.
#[verifier::external_body]
fn read_key(rest: &[u8]) -> (result: Result<(u32, u8, usize), prost::DecodeError>)
    ensures
        match result {
            Ok((tag, wire, left)) => key_read(rest@) == Some((tag, wire, left as nat)) && left
                < rest@.len(),
            Err(_) => key_read(rest@).is_none(),
        },
{
    let mut buf = rest;
    let (tag, wire_type) = prost::encoding::decode_key(&mut buf)?;
    Ok((tag, wire_type as u8, buf.len()))
}

/// `prost::encoding::int32::merge` on a byte slice: the value at its front
/// and the number of bytes left behind it.
#[verifier::external_body]
fn read_int32(wire: u8, rest: &[u8]) -> (result: Result<(i32, usize), prost::DecodeError>)
    ensures
        match result {
            Ok((value, left)) => int32_read(wire, rest@) == Some((value, left as nat)) && left
                <= rest@.len(),
            Err(_) => int32_read(wire, rest@).is_none(),
        },
{
    let mut buf = rest;
    let mut value: i32 = 0;
    let wire_type = prost::encoding::WireType::try_from(u64::from(wire))?;
    let ctx = prost::encoding::DecodeContext::default();
    prost::encoding::int32::merge(wire_type, &mut value, &mut buf, ctx)?;
    Ok((value, buf.len()))
}

/// `prost::encoding::skip_field` on a byte slice: the number of bytes left
/// behind the skipped value.
#[verifier::external_body]
fn skip_value(wire: u8, tag: u32, rest: &[u8]) -> (result: Result<usize, prost::DecodeError>)
    ensures
        match result {
            Ok(left) => skip_read(wire, tag, rest@) == Some(left as nat) && left <= rest@.len(),
            Err(_) => skip_read(wire, tag, rest@).is_none(),
        },
{
    let mut buf = rest;
    let wire_type = prost::encoding::WireType::try_from(u64::from(wire))?;
    let ctx = prost::encoding::DecodeContext::default();
    prost::encoding::skip_field(wire_type, tag, &mut buf, ctx)?;
    Ok(buf.len())
}

/// `prost::DecodeError::push`: the failure with the message and the field
/// in which it happened added to its location. Nothing is claimed of the
/// result.
#[verifier::external_body]
fn located(error: prost::DecodeError, message: &'static str, field: &'static str) -> (at:
    prost::DecodeError) {
    let mut at = error;
    at.push(message, field);
    at
}

/// The text of a decoding failure, through `Display` of
/// `prost::DecodeError`. Nothing is claimed of the text.
#[verifier::external_body]
pub(crate) fn decode_failure_text(error: &prost::DecodeError) -> (text: String) {
    format!("Failed to decode input: {}", error)
}

/// The direction code that an input message carries, read field by field:
/// the last direction field counts, other fields are skipped, and a message
/// without one carries `code`. `None` where a key or a value cannot be
/// read.
pub open spec fn input_code_from(bytes: Seq<u8>, code: i32) -> Option<i32>
    decreases bytes.len(),
{
    if bytes.len() == 0 {
        Some(code)
    } else {
        match key_read(bytes) {
            None => None,
            Some((tag, wire, left)) => {
                if left >= bytes.len() {
                    None
                } else {
                    let body = bytes.skip(bytes.len() - left);
                    if tag == DIRECTION_FIELD {
                        match int32_read(wire, body) {
                            None => None,
                            Some((value, after)) => if after > body.len() {
                                None
                            } else {
                                input_code_from(body.skip(body.len() - after), value)
                            },
                        }
                    } else {
                        match skip_read(wire, tag, body) {
                            None => None,
                            Some(after) => if after > body.len() {
                                None
                            } else {
                                input_code_from(body.skip(body.len() - after), code)
                            },
                        }
                    }
                }
            },
        }
    }
}

/// The direction code of an input message; zero where the message has no
/// direction field.
pub open spec fn input_code(bytes: Seq<u8>) -> Option<i32> {
    input_code_from(bytes, 0)
}

/// Reads the direction code of an encoded input message. A failure inside
/// the direction field says where it happened.
pub fn decode_input(input: &[u8]) -> (result: Result<i32, prost::DecodeError>)
    ensures
        match result {
            Ok(code) => input_code(input@) == Some(code),
            Err(_) => input_code(input@).is_none(),
        },
{
    let mut rest: &[u8] = input;
    let mut code: i32 = 0;
    while rest.len() > 0
        invariant
            input_code(input@) == input_code_from(rest@, code),
        decreases rest@.len(),
    {
        let (tag, wire, left) = match read_key(rest) {
            Ok(key) => key,
            Err(error) => {
                return Err(error);
            },
        };
        let body = slice_subrange(rest, rest.len() - left, rest.len());
        proof {
            assert(body@ =~= rest@.skip(rest@.len() - left));
        }
        if tag == DIRECTION_FIELD {
            match read_int32(wire, body) {
                Ok((value, after)) => {
                    code = value;
                    rest = slice_subrange(body, body.len() - after, body.len());
                    proof {
                        assert(rest@ =~= body@.skip(body@.len() - after));
                    }
                },
                Err(error) => {
                    return Err(located(error, "PaperioInput", "direction"));
                },
            }
        } else {
            match skip_value(wire, tag, body) {
                Ok(after) => {
                    rest = slice_subrange(body, body.len() - after, body.len());
                    proof {
                        assert(rest@ =~= body@.skip(body@.len() - after));
                    }
                },
                Err(error) => {
                    return Err(error);
                },
            }
        }
    }
    Ok(code)
}

} // verus!
