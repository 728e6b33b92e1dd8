//! Payment payloads and the exact bytes that get signed for them.
use vstd::prelude::*;
use vstd::utf8::encode_utf8;
use vstd::string::StringExecFns;
use crate::domain::{InteractionType, IntentPayload, PayloadModel, PROTOCOL_VERSION, UpiIntent};
use crate::error::VaultError;
use crate::text::{decimal, hex_char, push_decimal};

verus! {

/// How one character is written inside a JSON string literal: quote and
/// backslash are escaped, control characters get their short escape or a
/// `\u00XX` form with lowercase digits, and everything else is kept.
pub open spec fn json_escape(c: char) -> Seq<char> {
    if c == '"' {
        seq!['\\', '"']
    } else if c == '\\' {
        seq!['\\', '\\']
    } else if c == '\u{8}' {
        seq!['\\', 'b']
    } else if c == '\t' {
        seq!['\\', 't']
    } else if c == '\n' {
        seq!['\\', 'n']
    } else if c == '\u{c}' {
        seq!['\\', 'f']
    } else if c == '\r' {
        seq!['\\', 'r']
    } else if (c as u32) < 0x20 {
        seq!['\\', 'u', '0', '0', hex_char((c as u32 / 16) as nat), hex_char((c as u32 % 16) as nat)]
    } else {
        seq![c]
    }
}

/// The escaped characters of a text, in order.
pub open spec fn json_escaped(s: Seq<char>) -> Seq<char>
    decreases s.len(),
{
    if s.len() == 0 {
        Seq::empty()
    } else {
        json_escaped(s.drop_last()) + json_escape(s.last())
    }
}

/// Text written as a JSON string literal.
pub open spec fn json_string_of(s: Seq<char>) -> Seq<char> {
    seq!['"'] + json_escaped(s) + seq!['"']
}

/// Relies on serde_json::to_string for a `str`: the text in quotes, escaped
/// by its ESCAPE table; writing into a `Vec` cannot fail.
#[verifier::external_body]
fn json_string(s: &str) -> (r: String)
    ensures
        r@ == json_string_of(s@),
{
    serde_json::to_string(s).expect("a str always serializes")
}

/// Relies on std::time::SystemTime::now: whole seconds since the Unix
/// epoch, or `None` when the clock reads earlier than the epoch.
#[verifier::external_body]
fn unix_time_secs() -> (r: Option<u64>) {
    std::time::SystemTime::now().duration_since(std::time::UNIX_EPOCH).ok().map(|d| d.as_secs())
}

/// The name of an interaction kind as a JSON string literal.
pub open spec fn interaction_json(t: InteractionType) -> Seq<char> {
    match t {
        InteractionType::PaymentIntent => "\"PaymentIntent\""@,
        InteractionType::IdentityVerification => "\"IdentityVerification\""@,
    }
}

/// The signed form of a payload: one JSON object with its fields always in
/// the same order and no white space, as UTF-8 bytes.
pub open spec fn canonical_payload(p: PayloadModel) -> Seq<u8> {
    encode_utf8("{\"version\":"@) + encode_utf8(json_string_of(p.version)) + encode_utf8(
        ",\"interaction_type\":"@,
    ) + encode_utf8(interaction_json(p.interaction_type)) + encode_utf8(",\"timestamp\":"@)
        + decimal(p.timestamp as nat) + encode_utf8(",\"upi_data\":{\"vpa\":"@) + encode_utf8(
        json_string_of(p.upi_data.vpa),
    ) + encode_utf8(",\"name\":"@) + encode_utf8(json_string_of(p.upi_data.name)) + encode_utf8(
        ",\"amount\":"@,
    ) + encode_utf8(json_string_of(p.upi_data.amount)) + encode_utf8(",\"currency\":"@)
        + encode_utf8(json_string_of(p.upi_data.currency)) + encode_utf8("}}"@)
}

fn push_str(out: &mut Vec<u8>, s: &str)
    ensures
        final(out)@ == old(out)@ + encode_utf8(s@),
{
    out.extend_from_slice(s.as_bytes());
}

fn push_json_string(out: &mut Vec<u8>, s: &str)
    ensures
        final(out)@ == old(out)@ + encode_utf8(json_string_of(s@)),
{
    let quoted = json_string(s);
    push_str(out, quoted.as_str());
}

/// The bytes that are signed for a payload.
pub fn canonical_payload_bytes(p: &IntentPayload) -> (r: Vec<u8>)
    ensures
        r@ == canonical_payload(p@),
{
    let mut out: Vec<u8> = Vec::new();
    push_str(&mut out, "{\"version\":");
    push_json_string(&mut out, p.version.as_str());
    push_str(&mut out, ",\"interaction_type\":");
    match p.interaction_type {
        InteractionType::PaymentIntent => push_str(&mut out, "\"PaymentIntent\""),
        InteractionType::IdentityVerification => push_str(&mut out, "\"IdentityVerification\""),
    }
    push_str(&mut out, ",\"timestamp\":");
    push_decimal(&mut out, p.timestamp);
    push_str(&mut out, ",\"upi_data\":{\"vpa\":");
    push_json_string(&mut out, p.upi_data.vpa.as_str());
    push_str(&mut out, ",\"name\":");
    push_json_string(&mut out, p.upi_data.name.as_str());
    push_str(&mut out, ",\"amount\":");
    push_json_string(&mut out, p.upi_data.amount.as_str());
    push_str(&mut out, ",\"currency\":");
    push_json_string(&mut out, p.upi_data.currency.as_str());
    push_str(&mut out, "}}");
    assert(out@ =~= canonical_payload(p@));
    out
}

/// The payment payload for `upi_data` at the given time, in the current
/// protocol version.
pub fn payment_payload_at(upi_data: UpiIntent, timestamp: u64) -> (r: IntentPayload)
    ensures
        r@ == (PayloadModel {
            version: PROTOCOL_VERSION@,
            interaction_type: InteractionType::PaymentIntent,
            timestamp,
            upi_data: upi_data@,
        }),
{
    IntentPayload {
        version: String::from_str(PROTOCOL_VERSION),
        interaction_type: InteractionType::PaymentIntent,
        timestamp,
        upi_data,
    }
}

/// Builds protocol payloads.
pub struct InteractionService;

impl InteractionService {
    /// The payment payload for `upi_data`, stamped with the current time.
    pub fn create_payment_payload(upi_data: UpiIntent) -> (r: Result<IntentPayload, VaultError>)
        ensures
            r is Ok ==> r->Ok_0@.version == PROTOCOL_VERSION@ && r->Ok_0@.interaction_type
                == InteractionType::PaymentIntent && r->Ok_0@.upi_data == upi_data@,
            r is Err ==> r == Err::<IntentPayload, VaultError>(VaultError::ClockUnavailable),
    {
        match now_secs() {
            Ok(now) => Ok(payment_payload_at(upi_data, now)),
            Err(e) => Err(e),
        }
    }
}

/// The current time in whole seconds since the Unix epoch.
pub(crate) fn now_secs() -> (r: Result<u64, VaultError>)
    ensures
        r is Err ==> r == Err::<u64, VaultError>(VaultError::ClockUnavailable),
{
    match unix_time_secs() {
        Some(now) => Ok(now),
        None => Err(VaultError::ClockUnavailable),
    }
}

} // verus!
