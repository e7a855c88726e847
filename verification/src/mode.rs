//! Mode policy: maps the active behavior mode and the latest user message
//! to a system instruction and a sampling temperature. An `Auto` mode is
//! reclassified as `Philosophy` for the current turn when the lowercased
//! message contains a reflective keyword.
//!
//! Temperatures are carried as hundredths (`125` stands for 1.25), so that
//! the policy stays within integer arithmetic; the caller scales them down
//! before configuring the sampler.

use vstd::prelude::*;
use vstd::string::*;
use crate::text::{chars_of, contains_sub, seq_contains_sub};

verus! {

/// The user-selectable behavior modes.
#[derive(Clone, Copy, PartialEq, Eq, Structural, Debug)]
pub enum MiaMode {
    Auto,
    Basic,
    Philosophy,
    Search,
}

/// The fixed bilingual keyword list that marks a message as reflective.
pub open spec fn reflective_keywords() -> Seq<Seq<char>> {
    seq![
        "miért"@,
        "élet"@,
        "halál"@,
        "értelem"@,
        "világ"@,
        "létezés"@,
        "igazság"@,
        "filozófia"@,
    ]
}

/// A lowercased message is reflective when it contains any keyword.
pub open spec fn spec_is_reflective(lowered: Seq<char>) -> bool {
    exists|i: int|
        0 <= i < reflective_keywords().len() && seq_contains_sub(
            lowered,
            reflective_keywords()[i],
        )
}

/// The mode that actually governs this turn: `Auto` becomes `Philosophy`
/// on a reflective message and otherwise keeps its basic behavior.
pub open spec fn resolved_mode(current: MiaMode, lowered: Seq<char>) -> MiaMode {
    if current == MiaMode::Auto && spec_is_reflective(lowered) {
        MiaMode::Philosophy
    } else {
        current
    }
}

/// The fixed system instruction of a concrete mode.
pub open spec fn instruction_text(m: MiaMode) -> Seq<char> {
    match m {
        MiaMode::Philosophy => "You are Mia, in Philosopher Mode. Provide deep existential insights. Use poetic, serious language and challenge the user's perspective."@,
        MiaMode::Search => "You are Mia, a Fact-Checking Assistant. Answer using the provided web context accurately. DO NOT include URLs or links in your response text. Provide ONLY the information. The sources will be displayed as separate buttons by the system."@,
        _ => "You are Mia, a cute and smart AI assistant. Your goal is to be helpful and kind. Use a friendly tone and emojis."@,
    }
}

/// The fixed sampling temperature of a concrete mode, in hundredths.
pub open spec fn temperature_centi(m: MiaMode) -> u32 {
    match m {
        MiaMode::Philosophy => 125u32,
        MiaMode::Search => 30u32,
        _ => 75u32,
    }
}

/// Relies on `str::to_lowercase`: the result depends on the characters of
/// the input alone.
#[verifier::external_body]
fn lowercase(s: &str) -> (r: String)
    ensures
        r@ == lower_of(s@),
        s@.len() == 0 ==> r@.len() == 0,
{
    s.to_lowercase()
}

/// What `str::to_lowercase` returns for a given character sequence.
pub uninterp spec fn lower_of(s: Seq<char>) -> Seq<char>;

/// Does the lowercased message contain a reflective keyword?
pub fn is_reflective(lowered: &str) -> (r: bool)
    ensures
        r == spec_is_reflective(lowered@),
{
    let h = chars_of(lowered);
    let mut kws: Vec<Vec<char>> = Vec::new();
    kws.push(chars_of("miért"));
    kws.push(chars_of("élet"));
    kws.push(chars_of("halál"));
    kws.push(chars_of("értelem"));
    kws.push(chars_of("világ"));
    kws.push(chars_of("létezés"));
    kws.push(chars_of("igazság"));
    kws.push(chars_of("filozófia"));
    assert(kws@.len() == reflective_keywords().len());
    assert(forall|i: int| 0 <= i < kws@.len() ==> kws@[i]@ == reflective_keywords()[i]);
    let mut i: usize = 0;
    while i < kws.len()
        invariant
            h@ == lowered@,
            kws@.len() == reflective_keywords().len(),
            forall|k: int| 0 <= k < kws@.len() ==> kws@[k]@ == reflective_keywords()[k],
            i <= kws@.len(),
            forall|k: int|
                0 <= k < i ==> !seq_contains_sub(lowered@, reflective_keywords()[k]),
        decreases kws@.len() - i,
    {
        if contains_sub(&h, &kws[i]) {
            assert(seq_contains_sub(lowered@, reflective_keywords()[i as int]));
            return true;
        }
        i += 1;
    }
    false
}

/// The instruction and temperature (in hundredths) of the mode that governs
/// a turn whose lowercased message is given.
pub fn settings_for_lowered(lowered: &str, current_mode: &MiaMode) -> (r: (String, u32))
    ensures
        r.0@ == instruction_text(resolved_mode(*current_mode, lowered@)),
        r.1 == temperature_centi(resolved_mode(*current_mode, lowered@)),
{
    let mut final_mode = *current_mode;
    if final_mode == MiaMode::Auto {
        if is_reflective(lowered) {
            final_mode = MiaMode::Philosophy;
        }
    }
    match final_mode {
        MiaMode::Philosophy => (
            String::from_str(
                "You are Mia, in Philosopher Mode. Provide deep existential insights. Use poetic, serious language and challenge the user's perspective.",
            ),
            125,
        ),
        MiaMode::Search => (
            String::from_str(
                "You are Mia, a Fact-Checking Assistant. Answer using the provided web context accurately. DO NOT include URLs or links in your response text. Provide ONLY the information. The sources will be displayed as separate buttons by the system.",
            ),
            30,
        ),
        _ => (
            String::from_str(
                "You are Mia, a cute and smart AI assistant. Your goal is to be helpful and kind. Use a friendly tone and emojis.",
            ),
            75,
        ),
    }
}

/// Only the fact-checking mode needs retrieval augmentation.
pub fn requires_search(mode: &MiaMode) -> (r: bool)
    ensures
        r == (*mode == MiaMode::Search),
{
    *mode == MiaMode::Search
}

/// Resolves the system instruction and sampling temperature for one turn.
/// Pure in its inputs: the stored mode is never changed by resolution.
pub fn get_settings_for_mode(content: &str, current_mode: &MiaMode) -> (r: (String, u32))
    ensures
        r.0@ == instruction_text(resolved_mode(*current_mode, lower_of(content@))),
        r.1 == temperature_centi(resolved_mode(*current_mode, lower_of(content@))),
{
    let lowered = lowercase(content);
    settings_for_lowered(lowered.as_str(), current_mode)
}

} // verus!
