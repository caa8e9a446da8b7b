//! Framing of browser Native Messaging: a message is a little-endian
//! 32-bit length followed by exactly that many bytes of JSON.
use vstd::prelude::*;
use crate::text::dec;

verus! {

#[verifier::external_type_specification]
#[verifier::external_body]
pub struct ExJsonValue(serde_json::Value);

/// Whether `serde_json::from_slice::<Value>` accepts the bytes.
pub uninterp spec fn json_accepts(body: Seq<u8>) -> bool;

/// The text `serde_json` gives for the error rejecting the bytes.
pub uninterp spec fn json_error_text(body: Seq<u8>) -> Seq<char>;

/// `serde_json::from_slice` into a `serde_json::Value`. The contract names
/// whether the crate accepts the bytes and, when it does not, the text of
/// its error; the parsed value itself is opaque here.
#[verifier::external_body]
fn parse_json_value(body: &[u8]) -> (r: Result<serde_json::Value, String>)
    ensures
        r is Ok <==> json_accepts(body@),
        r matches Err(m) ==> m@ == json_error_text(body@),
{
    serde_json::from_slice::<serde_json::Value>(body).map_err(|error| error.to_string())
}

pub open spec fn length_message(maximum_bytes: usize) -> Seq<char> {
    "native message length must be between 1 and "@ + dec(maximum_bytes as nat) + " bytes"@
}

fn length_error(maximum_bytes: usize) -> (m: String)
    ensures
        m@ == length_message(maximum_bytes),
{
    let mut m = String::from_str("native message length must be between 1 and ");
    crate::text::push_decimal(&mut m, maximum_bytes as u64);
    m.append(" bytes");
    m
}

/// Decodes a message body whose length prefix was already consumed: it
/// must hold between 1 and `maximum_bytes` bytes of valid JSON.
pub fn decode_json_body(body: &[u8], maximum_bytes: usize) -> (r: Result<serde_json::Value, String>)
    ensures
        (body@.len() == 0 || body@.len() > maximum_bytes) ==> (r matches Err(m) && m@ == length_message(maximum_bytes)),
        !(body@.len() == 0 || body@.len() > maximum_bytes) ==> ((r is Ok <==> json_accepts(body@)) && (r matches Err(m)
            ==> m@ == "failed to decode the native message: "@ + json_error_text(body@))),
{
    if body.len() == 0 || body.len() > maximum_bytes {
        return Err(length_error(maximum_bytes));
    }
    match parse_json_value(body) {
        Ok(v) => Ok(v),
        Err(e) => {
            let mut m = String::from_str("failed to decode the native message: ");
            m.append(e.as_str());
            Err(m)
        },
    }
}

/// The little-endian value of four bytes.
pub open spec fn le_u32(b0: u8, b1: u8, b2: u8, b3: u8) -> nat {
    b0 as nat + 256 * (b1 as nat) + 65536 * (b2 as nat) + 16777216 * (b3 as nat)
}

/// Decodes exactly one frame: a 4-byte little-endian length between 1 and
/// `maximum_bytes`, then exactly that many bytes of JSON. Truncated frames,
/// trailing bytes, empty or oversized payloads and invalid JSON are refused.
pub fn decode_framed_json(input: &[u8], maximum_bytes: usize) -> (r: Result<serde_json::Value, String>)
    ensures
        input@.len() < 4 ==> (r matches Err(m) && m@ == "native frame is missing its four-byte length prefix"@),
        input@.len() >= 4 ==> ({
            let declared = le_u32(input@[0], input@[1], input@[2], input@[3]);
            let body = input@.subrange(4, input@.len() as int);
            if declared == 0 || declared > maximum_bytes {
                r matches Err(m) && m@ == length_message(maximum_bytes)
            } else if input@.len() != declared + 4 {
                r matches Err(m) && m@ == "native frame length does not match its payload"@
            } else {
                (r is Ok <==> json_accepts(body)) && (r matches Err(m) ==> m@
                    == "failed to decode the native message: "@ + json_error_text(body))
            }
        }),
{
    if input.len() < 4 {
        return Err(String::from_str("native frame is missing its four-byte length prefix"));
    }
    let declared: u64 = input[0] as u64 + 256 * (input[1] as u64) + 65536 * (input[2] as u64) + 16777216 * (
    input[3] as u64);
    if declared == 0 || declared > maximum_bytes as u64 {
        return Err(length_error(maximum_bytes));
    }
    if input.len() as u64 != declared + 4 {
        return Err(String::from_str("native frame length does not match its payload"));
    }
    let (_, body) = input.split_at(4);
    proof {
        assert(body@ =~= input@.subrange(4, input@.len() as int));
    }
    decode_json_body(body, maximum_bytes)
}

} // verus!
