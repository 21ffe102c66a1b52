//! What a request for a projection is answered with: a text, and an exit code.

use vstd::prelude::*;
use base64::Engine;
use crate::causal_context::gateway::{Outcome, OutcomeModel};
use crate::text;

verus! {

broadcast use vstd::string::group_string_axioms;

/// The exit code that asks for the command to be run as it was written.
pub const RETRY_EXIT_CODE: i32 = 75;

/// The base64 text of bytes, in the standard alphabet and padded.
pub uninterp spec fn base64_standard(raw: Seq<u8>) -> Seq<char>;

/// `base64::Engine::encode` of `base64::engine::general_purpose::STANDARD`: the text depends on
/// the bytes alone and has four characters for each three bytes that were begun. It panics where
/// the length of the text does not fit its buffer.
#[verifier::external_body]
fn encode_base64(raw: &[u8]) -> (r: String)
    requires
        (raw@.len() + 2) / 3 * 4 <= isize::MAX,
    ensures
        r@ == base64_standard(raw@),
        r@.len() == (raw@.len() + 2) / 3 * 4,
{
    base64::engine::general_purpose::STANDARD.encode(raw)
}

/// The answer to a request.
#[derive(Debug, PartialEq, Eq)]
pub struct Reply {
    pub text: Option<String>,
    pub exit_code: i32,
}

/// What a `Reply` says.
pub struct ReplyModel {
    pub text: Option<Seq<char>>,
    pub exit_code: i32,
}

impl DeepView for Reply {
    type V = ReplyModel;

    open spec fn deep_view(&self) -> ReplyModel {
        ReplyModel { text: self.text.deep_view(), exit_code: self.exit_code }
    }
}

/// The answer to a request with an outcome: the projection, encoded or as it is, or else the
/// wish to run the command as it was written.
pub open spec fn reply_to(outcome: Option<OutcomeModel>, encode: bool) -> ReplyModel {
    match outcome {
        Some(OutcomeModel::Projection { text, exit_code }) => ReplyModel {
            text: Some(
                if encode {
                    base64_standard(vstd::utf8::encode_utf8(text))
                } else {
                    text
                },
            ),
            exit_code,
        },
        _ => ReplyModel { text: None, exit_code: RETRY_EXIT_CODE },
    }
}

/// The answer to a request that has an outcome, or none where it could not be run at all.
pub fn reply(outcome: Option<Outcome>, encode: bool) -> (r: Reply)
    requires
        outcome.deep_view() matches Some(OutcomeModel::Projection { text, .. }) ==> (text::byte_len(
            text,
        ) + 2) / 3 * 4 <= isize::MAX,
    ensures
        r.deep_view() == reply_to(outcome.deep_view(), encode),
{
    match outcome {
        Some(Outcome::Projection { text, exit_code }) => {
            if encode {
                Reply { text: Some(encode_base64(text.as_str().as_bytes())), exit_code }
            } else {
                Reply { text: Some(text), exit_code }
            }
        },
        _ => Reply { text: None, exit_code: RETRY_EXIT_CODE },
    }
}

/// Whatever is not a projection is answered with nothing but the wish to run the command as it
/// was written.
pub proof fn only_projections_are_shown(outcome: Option<OutcomeModel>, encode: bool)
    ensures
        reply_to(outcome, encode).text is Some <==> (outcome is Some && outcome->0 is Projection),
        reply_to(outcome, encode).text is None ==> reply_to(outcome, encode).exit_code
            == RETRY_EXIT_CODE,
{
}

/// A projection is answered with its text and its exit code; where the answer goes through a
/// shell that could change it, the text is in Base64.
pub proof fn projections_are_answered(shown: Seq<char>, exit_code: i32, encode: bool)
    ensures
        ({
            let reply = reply_to(
                Some(OutcomeModel::Projection { text: shown, exit_code }),
                encode,
            );
            &&& reply.exit_code == exit_code
            &&& !encode ==> reply.text == Some(shown)
            &&& encode ==> reply.text == Some(base64_standard(vstd::utf8::encode_utf8(shown)))
        }),
        reply_to(None, encode) == (ReplyModel { text: None, exit_code: 75 }),
{
}

} // verus!
