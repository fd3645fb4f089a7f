//! Choices made around an AI analysis: which provider is asked first and
//! when the local one takes over, which model and reasoning effort a mode
//! gets, how long to wait, the prompts, the academic-integrity warning and
//! the pseudonymous profile identifier sent with cloud requests.
use vstd::prelude::*;
use vstd::string::StringSliceAdditionalSpecFns;
use crate::encoding::{encode_hex, hex_lower, sha256, sha256_digest};
use crate::text::{append_str, chars_of, string_of, text_equals};

verus! {

/// Shown with every analysis of assessed work.
pub const INTEGRITY_WARNING: &'static str = "IB does not regard AI-produced material as your own work. If you use generated or paraphrased text in assessed work, credit the tool in the text and bibliography and follow your school's policy.";

/// Closes the system prompt when the work is not assessed.
pub const INTEGRITY_REMINDER: &'static str = "For assessed work, identify integrity risks and never imply generated text is the student's own.";

/// Opens the system prompt of the cloud model.
pub const SYSTEM_PREAMBLE: &'static str = "You are the evidence-focused planning engine inside IB 45 Coach. Treat 45 as an aspiration, never a promise. Separate observed facts from inference. Do not invent grade boundaries, deadlines, citations, or completed work. Prefer the smallest realistic next actions that fit the stated capacity. Return only the requested JSON. ";

/// Opens the prompt of the local model.
pub const LOCAL_PREAMBLE: &'static str = "You are the offline fallback for IB 45 Coach. Return JSON only with keys summary, claims, uncertainty, evidence, recommendedActions. Never promise a score. Never invent grade boundaries or evidence.\nRequest: ";

/// The local model, served by Ollama.
pub const LOCAL_MODEL: &'static str = "qwen3:4b";

/// Seconds to wait for the local model.
pub const LOCAL_TIMEOUT_SECS: u64 = 120;

/// The seed of the default profile identifier.
pub const PROFILE_SEED: &'static str = "ib45-primary-profile";

/// Who answers an analysis request.
#[derive(PartialEq, Eq, Structural, Clone, Copy, Debug)]
pub enum Provider {
    /// The OpenAI Responses API.
    OpenAi,
    /// A local Ollama server.
    Ollama,
}

/// The provider asked first: the cloud when an API key is stored, else the
/// local model.
pub open spec fn first_provider_of(has_api_key: bool) -> Provider {
    if has_api_key {
        Provider::OpenAi
    } else {
        Provider::Ollama
    }
}

/// The provider to ask after `failed` failed: the local model takes over
/// from the cloud when a key is stored; nothing takes over from the local
/// model.
pub open spec fn fallback_of(failed: Provider, has_api_key: bool) -> Option<Provider> {
    if failed == Provider::OpenAi && has_api_key {
        Some(Provider::Ollama)
    } else {
        None
    }
}

/// The provider to ask first.
pub fn first_provider(has_api_key: bool) -> (r: Provider)
    ensures
        r == first_provider_of(has_api_key),
{
    if has_api_key {
        Provider::OpenAi
    } else {
        Provider::Ollama
    }
}

/// The provider to ask after a failure, if any.
pub fn fallback_after_failure(failed: Provider, has_api_key: bool) -> (r: Option<Provider>)
    ensures
        r == fallback_of(failed, has_api_key),
{
    match failed {
        Provider::OpenAi => if has_api_key {
            Some(Provider::Ollama)
        } else {
            None
        },
        Provider::Ollama => None,
    }
}

/// A request is tried on at most two providers, the local model last: after
/// the first provider and its fallback, nothing is left to ask.
pub proof fn at_most_one_fallback(has_api_key: bool)
    ensures
        match fallback_of(first_provider_of(has_api_key), has_api_key) {
            Some(p) => p == Provider::Ollama && fallback_of(p, has_api_key) is None,
            None => first_provider_of(has_api_key) == Provider::Ollama,
        },
{
}

/// The model and reasoning effort for an analysis mode: classification and
/// extraction run small and fast, deep analysis runs large, everything else
/// in between.
pub open spec fn model_and_effort(mode: Seq<char>) -> (Seq<char>, Seq<char>) {
    if mode == "classify"@ || mode == "extract"@ {
        ("gpt-5.6-luna"@, "low"@)
    } else if mode == "deep"@ {
        ("gpt-5.6-sol"@, "high"@)
    } else {
        ("gpt-5.6-terra"@, "medium"@)
    }
}

/// The cloud model and reasoning effort for `mode`.
pub fn model_for_mode(mode: &str) -> (r: (&'static str, &'static str))
    ensures
        (r.0@, r.1@) == model_and_effort(mode@),
{
    if text_equals(mode, "classify") || text_equals(mode, "extract") {
        ("gpt-5.6-luna", "low")
    } else if text_equals(mode, "deep") {
        ("gpt-5.6-sol", "high")
    } else {
        ("gpt-5.6-terra", "medium")
    }
}

/// Seconds to wait for the cloud model: three minutes for deep analysis,
/// ninety seconds otherwise.
pub fn cloud_timeout_secs(mode: &str) -> (r: u64)
    ensures
        r == if mode@ == "deep"@ {
            180u64
        } else {
            90u64
        },
{
    if text_equals(mode, "deep") {
        180
    } else {
        90
    }
}

/// The integrity warning attached to an analysis: present exactly for
/// assessed work.
pub fn integrity_warning(assessed_work: bool) -> (r: Option<String>)
    ensures
        assessed_work ==> (r matches Some(w) && w@ == INTEGRITY_WARNING@),
        !assessed_work ==> r is None,
{
    if assessed_work {
        Some(string_of(&chars_of(INTEGRITY_WARNING)))
    } else {
        None
    }
}

/// The system prompt of the cloud model: the preamble, then the integrity
/// warning for assessed work or the integrity reminder otherwise.
pub fn system_prompt(assessed_work: bool) -> (r: String)
    ensures
        r@ == SYSTEM_PREAMBLE@ + if assessed_work {
            INTEGRITY_WARNING@
        } else {
            INTEGRITY_REMINDER@
        },
{
    let mut v: Vec<char> = Vec::new();
    append_str(&mut v, SYSTEM_PREAMBLE);
    if assessed_work {
        append_str(&mut v, INTEGRITY_WARNING);
    } else {
        append_str(&mut v, INTEGRITY_REMINDER);
    }
    string_of(&v)
}

/// The user message of the cloud request: the request, then the local
/// context (as pretty-printed JSON).
pub fn cloud_user_text(prompt: &str, context_json: &str) -> (r: String)
    ensures
        r@ == "Request:\n"@ + prompt@ + "\n\nVerified local context:\n"@ + context_json@,
{
    let mut v: Vec<char> = Vec::new();
    append_str(&mut v, "Request:\n");
    append_str(&mut v, prompt);
    append_str(&mut v, "\n\nVerified local context:\n");
    append_str(&mut v, context_json);
    string_of(&v)
}

/// The prompt of the local model: its preamble, the request, the context
/// (as compact JSON) and, for assessed work, the integrity warning.
pub fn local_prompt(prompt: &str, context_json: &str, assessed_work: bool) -> (r: String)
    ensures
        r@ == LOCAL_PREAMBLE@ + prompt@ + "\nContext: "@ + context_json@ + "\n"@ + if assessed_work {
            INTEGRITY_WARNING@
        } else {
            Seq::<char>::empty()
        },
{
    let mut v: Vec<char> = Vec::new();
    append_str(&mut v, LOCAL_PREAMBLE);
    append_str(&mut v, prompt);
    append_str(&mut v, "\nContext: ");
    append_str(&mut v, context_json);
    append_str(&mut v, "\n");
    if assessed_work {
        append_str(&mut v, INTEGRITY_WARNING);
    }
    string_of(&v)
}

/// The message when both the cloud and the local model failed.
pub fn fallback_failure_message(cloud_error: &str, local_error: &str) -> (r: String)
    ensures
        r@ == "Cloud analysis failed: "@ + cloud_error@ + ". Local fallback failed: "@
            + local_error@,
{
    let mut v: Vec<char> = Vec::new();
    append_str(&mut v, "Cloud analysis failed: ");
    append_str(&mut v, cloud_error);
    append_str(&mut v, ". Local fallback failed: ");
    append_str(&mut v, local_error);
    string_of(&v)
}

/// The default profile identifier: the hexadecimal SHA-256 digest of the
/// seed's bytes.
pub open spec fn default_profile_id() -> Seq<char> {
    hex_lower(sha256_digest(PROFILE_SEED.spec_bytes()))
}

/// The profile identifier to send: the stored one, or else the default,
/// which is then to be stored (second component `true`).
pub fn profile_safety_id(stored: Option<String>) -> (r: (String, bool))
    ensures
        match stored {
            Some(s) => r.0 == s && !r.1,
            None => r.0@ == default_profile_id() && r.1,
        },
{
    match stored {
        Some(s) => (s, false),
        None => {
            let digest = sha256(PROFILE_SEED.as_bytes());
            (encode_hex(digest.as_slice()), true)
        },
    }
}

/// The identifier as sent: its first 64 bytes. The byte at which it is cut
/// must begin a character.
pub fn safety_identifier(profile_id: &str) -> (r: &str)
    requires
        profile_id.spec_bytes().len() <= 64 || vstd::utf8::is_char_boundary(
            profile_id.spec_bytes(),
            64,
        ),
    ensures
        r.spec_bytes() == profile_id.spec_bytes().take(
            if profile_id.spec_bytes().len() <= 64 {
                profile_id.spec_bytes().len() as int
            } else {
                64
            },
        ),
{
    let byte_len = profile_id.as_bytes().len();
    if byte_len <= 64 {
        assert(profile_id.spec_bytes().take(profile_id.spec_bytes().len() as int)
            =~= profile_id.spec_bytes());
        profile_id
    } else {
        let (head, _) = profile_id.split_at(64);
        assert(head.spec_bytes() =~= profile_id.spec_bytes().take(64));
        head
    }
}

/// The summary kept when the model gave none.
pub const DEFAULT_SUMMARY: &'static str = "Analysis completed.";

/// The uncertainty kept when the model stated none.
pub const DEFAULT_UNCERTAINTY: &'static str = "Confidence has not been calibrated.";

/// A text field of the model's answer, or `fallback` when it is missing.
pub fn text_or(value: Option<String>, fallback: &str) -> (r: String)
    ensures
        match value {
            Some(v) => r == v,
            None => r@ == fallback@,
        },
{
    match value {
        Some(v) => v,
        None => string_of(&chars_of(fallback)),
    }
}

/// The text of a cloud answer: the text of the first content item, over all
/// output items in order, whose type is "output_text" (none when that item
/// has no text or no item has that type). Each content item is given as
/// whether its type is "output_text" and its text, if it has one.
pub open spec fn output_text_of(contents: Seq<(bool, Option<String>)>) -> Option<String>
    decreases contents.len(),
{
    if contents.len() == 0 {
        None
    } else if contents[0].0 {
        contents[0].1
    } else {
        output_text_of(contents.drop_first())
    }
}

/// Picks the answer text out of the content items of a cloud response.
pub fn first_output_text(contents: &Vec<(bool, Option<String>)>) -> (r: Option<String>)
    ensures
        r == output_text_of(contents@),
{
    let mut i: usize = 0;
    assert(contents@.skip(0) =~= contents@);
    while i < contents.len()
        invariant
            i <= contents.len(),
            output_text_of(contents@) == output_text_of(contents@.skip(i as int)),
        decreases contents.len() - i,
    {
        assert(contents@.skip(i as int)[0] == contents@[i as int]);
        if contents[i].0 {
            return match &contents[i].1 {
                Some(t) => Some(t.clone()),
                None => None,
            };
        }
        assert(contents@.skip(i as int).drop_first() =~= contents@.skip(i + 1));
        i += 1;
    }
    None
}

} // verus!
