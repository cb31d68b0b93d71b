//! The signed assertion by which a service account asks for an access token.

use crate::event::{count_json, no_members};
use crate::json::{Json, JsonObject, JsonView};
use crate::json_text::{json_text, number, to_text};
use vstd::prelude::*;
use vstd::string::*;
use vstd::utf8::*;

verus! {

/// How long an assertion is valid, in seconds.
pub const ASSERTION_LIFETIME: u64 = 3600;

/// The digit for `n`, which is below 64, in URL-safe base 64.
pub open spec fn base64url_digit(n: int) -> char {
    "ABCDEFGHIJKLMNOPQRSTUVWXYZabcdefghijklmnopqrstuvwxyz0123456789-_"@[n]
}

/// The URL-safe base 64 encoding without padding: three bytes make four digits of
/// six bits each; of one or two bytes that are left the missing bits are zero.
pub open spec fn base64url(bytes: Seq<u8>) -> Seq<char>
    decreases bytes.len(),
{
    if bytes.len() == 0 {
        seq![]
    } else if bytes.len() == 1 {
        seq![base64url_digit(bytes[0] as int / 4), base64url_digit(bytes[0] % 4 * 16)]
    } else if bytes.len() == 2 {
        seq![
            base64url_digit(bytes[0] as int / 4),
            base64url_digit(bytes[0] % 4 * 16 + bytes[1] / 16),
            base64url_digit(bytes[1] % 16 * 4),
        ]
    } else {
        seq![
            base64url_digit(bytes[0] as int / 4),
            base64url_digit(bytes[0] % 4 * 16 + bytes[1] / 16),
            base64url_digit(bytes[1] % 16 * 4 + bytes[2] / 64),
            base64url_digit(bytes[2] as int % 64),
        ] + base64url(bytes.skip(3))
    }
}

fn append_digit(text: &mut String, n: u8)
    requires
        n < 64,
    ensures
        final(text)@ == old(text)@.push(base64url_digit(n as int)),
{
    let digits = "ABCDEFGHIJKLMNOPQRSTUVWXYZabcdefghijklmnopqrstuvwxyz0123456789-_";
    proof {
        reveal_strlit("ABCDEFGHIJKLMNOPQRSTUVWXYZabcdefghijklmnopqrstuvwxyz0123456789-_");
    }
    text.append(digits.substring_char(n as usize, n as usize + 1));
    assert(text@ =~= old(text)@.push(base64url_digit(n as int)));
}

/// The URL-safe base 64 encoding of `bytes`, without padding.
pub fn base64url_text(bytes: &[u8]) -> (text: String)
    ensures
        text@ == base64url(bytes@),
{
    let mut text = String::new();
    let mut i: usize = 0;
    assert(bytes@.skip(0) =~= bytes@);
    assert(text@ + base64url(bytes@) =~= base64url(bytes@));
    while bytes.len() - i >= 3
        invariant
            i <= bytes@.len(),
            text@ + base64url(bytes@.skip(i as int)) == base64url(bytes@),
        decreases bytes@.len() - i,
    {
        let ghost before = text@;
        let ghost rest = bytes@.skip(i as int);
        append_digit(&mut text, bytes[i] / 4);
        append_digit(&mut text, bytes[i] % 4 * 16 + bytes[i + 1] / 16);
        append_digit(&mut text, bytes[i + 1] % 16 * 4 + bytes[i + 2] / 64);
        append_digit(&mut text, bytes[i + 2] % 64);
        proof {
            assert(rest.skip(3) =~= bytes@.skip(i + 3));
            assert(text@ + base64url(rest.skip(3)) =~= before + base64url(rest));
        }
        i += 3;
    }
    let ghost before = text@;
    let ghost rest = bytes@.skip(i as int);
    if bytes.len() - i == 1 {
        append_digit(&mut text, bytes[i] / 4);
        append_digit(&mut text, bytes[i] % 4 * 16);
    } else if bytes.len() - i == 2 {
        append_digit(&mut text, bytes[i] / 4);
        append_digit(&mut text, bytes[i] % 4 * 16 + bytes[i + 1] / 16);
        append_digit(&mut text, bytes[i + 1] % 16 * 4);
    }
    assert(text@ =~= before + base64url(rest));
    text
}

/// What the header of an assertion says: how it is signed.
pub open spec fn assertion_header() -> JsonView {
    JsonView::Object(
        no_members().insert("alg"@, JsonView::String("RS256"@)).insert(
            "typ"@,
            JsonView::String("JWT"@),
        ),
    )
}

/// What an assertion claims: who asks whom for which scope, and when, in seconds.
pub open spec fn assertion_claims(email: Seq<char>, token_uri: Seq<char>, now: nat) -> JsonView {
    JsonView::Object(
        no_members().insert("iss"@, JsonView::String(email)).insert(
            "scope"@,
            JsonView::String("https://www.googleapis.com/auth/cloud-platform"@),
        ).insert("aud"@, JsonView::String(token_uri)).insert("iat"@, count_json(now)).insert(
            "exp"@,
            count_json(now + ASSERTION_LIFETIME as nat),
        ),
    )
}

/// The encoded JSON text of a value.
pub open spec fn encoded_json(value: JsonView) -> Seq<char> {
    base64url(encode_utf8(json_text(value)))
}

fn encode_json(json: &Json) -> (text: String)
    ensures
        text@ == encoded_json(json@),
{
    base64url_text(to_text(json).as_str().as_bytes())
}

/// The text that is signed: the encoded header and the encoded claims. The times
/// are seconds since 1970.
pub fn signing_input(client_email: &str, token_uri: &str, now: u64) -> (text: String)
    requires
        now + ASSERTION_LIFETIME <= u64::MAX,
    ensures
        text@ == encoded_json(assertion_header()) + "."@ + encoded_json(
            assertion_claims(client_email@, token_uri@, now as nat),
        ),
{
    let header = JsonObject::new().with("alg", Json::string("RS256")).with(
        "typ",
        Json::string("JWT"),
    );
    let claims = JsonObject::new().with("iss", Json::string(client_email)).with(
        "scope",
        Json::string("https://www.googleapis.com/auth/cloud-platform"),
    ).with("aud", Json::string(token_uri)).with("iat", Json::Number(number(now))).with(
        "exp",
        Json::Number(number(now + ASSERTION_LIFETIME)),
    );
    let mut text = encode_json(&Json::Object(header));
    text.append(".");
    text.append(encode_json(&Json::Object(claims)).as_str());
    text
}

/// The assertion: the text that was signed, and its signature.
pub fn signed_assertion(input: &str, signature: &[u8]) -> (assertion: String)
    ensures
        assertion@ == input@ + "."@ + base64url(signature@),
{
    let mut assertion = input.to_owned();
    assertion.append(".");
    assertion.append(base64url_text(signature).as_str());
    assertion
}

/// Three bytes become four digits that hold the same 24 bits, and what follows them
/// is encoded by itself.
pub proof fn law_three_bytes_make_four_digits(a: u8, b: u8, c: u8, rest: Seq<u8>)
    ensures
        exists|d0: int, d1: int, d2: int, d3: int|
            {
                &&& 0 <= d0 < 64 && 0 <= d1 < 64 && 0 <= d2 < 64 && 0 <= d3 < 64
                &&& ((d0 * 64 + d1) * 64 + d2) * 64 + d3 == (a * 256 + b) * 256 + c
                &&& base64url(seq![a, b, c] + rest) == #[trigger] four_digits(d0, d1, d2, d3)
                    + base64url(rest)
            },
{
    let bytes = seq![a, b, c] + rest;
    assert(bytes.skip(3) =~= rest);
    let d0 = a as int / 4;
    let d1 = a % 4 * 16 + b / 16;
    let d2 = b % 16 * 4 + c / 64;
    let d3 = c as int % 64;
    assert(base64url(bytes) =~= four_digits(d0, d1, d2, d3) + base64url(rest));
}

/// Four digits, of the alphabet of URL-safe base 64.
pub open spec fn four_digits(d0: int, d1: int, d2: int, d3: int) -> Seq<char> {
    let digits = "ABCDEFGHIJKLMNOPQRSTUVWXYZabcdefghijklmnopqrstuvwxyz0123456789-_"@;
    seq![digits[d0], digits[d1], digits[d2], digits[d3]]
}

/// One or two bytes that are left become as many digits and one more: the first ones
/// of the bytes with zeros behind them.
pub proof fn law_last_bytes(a: u8, b: u8)
    ensures
        base64url(seq![]).len() == 0,
        base64url(seq![a]).len() == 2,
        base64url(seq![a]) == base64url(seq![a, 0, 0]).take(2),
        base64url(seq![a, b]).len() == 3,
        base64url(seq![a, b]) == base64url(seq![a, b, 0]).take(3),
{
    assert(seq![a, 0, 0].skip(3) =~= seq![]);
    assert(seq![a, b, 0].skip(3) =~= seq![]);
    assert(base64url(seq![a]) =~= base64url(seq![a, 0, 0]).take(2));
    assert(base64url(seq![a, b]) =~= base64url(seq![a, b, 0]).take(3));
}

/// What is encoded of a value is the bytes of its JSON text.
pub proof fn law_json_is_encoded(value: JsonView)
    ensures
        encoded_json(value) == base64url(encode_utf8(json_text(value))),
{
}

} // verus!
