//! Request and message ids.

use crate::text::{byte_prefix, lemma_ascii_prefix, on_boundary, prefix_bytes};
use vstd::prelude::*;
use vstd::string::*;
use vstd::utf8::*;

verus! {

/// A lower case hexadecimal digit.
pub open spec fn is_hex_digit(c: char) -> bool {
    ('0' <= c <= '9') || ('a' <= c <= 'f')
}

/// The hyphenated form of a random UUID: 36 characters in groups of 8, 4, 4, 4 and
/// 12 lower case hexadecimal digits, with the version and variant in place.
pub open spec fn is_random_uuid(text: Seq<char>) -> bool {
    &&& text.len() == 36
    &&& forall|i: int|
        0 <= i < 36 ==> if i == 8 || i == 13 || i == 18 || i == 23 {
            #[trigger] text[i] == '-'
        } else {
            is_hex_digit(text[i])
        }
    &&& text[14] == '4'
    &&& (text[19] == '8' || text[19] == '9' || text[19] == 'a' || text[19] == 'b')
}

/// `uuid::Uuid::new_v4` and its `to_string`: the hyphenated form of a random UUID.
/// Which one it is depends on chance. The call does not return where the system
/// has no source of randomness.
#[verifier::external_body]
fn random_uuid() -> (text: String)
    ensures
        is_random_uuid(text@),
{
    uuid::Uuid::new_v4().to_string()
}

/// The ids of a request and of the message that answers it.
pub struct RequestIds {
    pub request: String,
    pub message: String,
}

/// The id of the message that answers the request `req_id`.
pub fn message_id(req_id: &str) -> (id: String)
    requires
        on_boundary(req_id@, 24),
    ensures
        id@ == "msg_"@ + byte_prefix(req_id@, 24),
{
    let mut id = "msg_".to_owned();
    id.append(prefix_bytes(req_id, 24).as_str());
    id
}

/// Every character of a UUID is one byte.
pub proof fn lemma_uuid_is_ascii(text: Seq<char>)
    requires
        is_random_uuid(text),
    ensures
        is_ascii_chars(text),
        forall|n: nat| n <= 36 ==> #[trigger] on_boundary(text, n),
        forall|n: nat| n <= 36 ==> #[trigger] byte_prefix(text, n) == text.take(n as int),
{
    assert forall|i: int| 0 <= i < text.len() implies 0 <= (#[trigger] text[i]) as nat && (
    text[i] as nat) < 128 by {
        if !(i == 8 || i == 13 || i == 18 || i == 23) {
            assert(is_hex_digit(text[i]));
        }
    }
    assert forall|n: nat| n <= 36 implies #[trigger] on_boundary(text, n) by {
        lemma_ascii_prefix(text, n);
    }
    assert forall|n: nat| n <= 36 implies #[trigger] byte_prefix(text, n) == text.take(
        n as int,
    ) by {
        lemma_ascii_prefix(text, n);
    }
}

/// Fresh ids for a request and its answer.
pub fn new_request_ids() -> (ids: RequestIds)
    ensures
        is_random_uuid(ids.request@),
        ids.message@ == "msg_"@ + ids.request@.take(24),
{
    let request = random_uuid();
    proof {
        lemma_uuid_is_ascii(request@);
    }
    let message = message_id(request.as_str());
    RequestIds { request, message }
}

} // verus!
