//! Generation loop bookkeeping: the bounded sampling/emitting state
//! machine, the prompt-length check, the sampler plan and the throughput
//! formula. The native decode and sampling calls are the surrounding
//! application's business; it reports each sampled token here, and this
//! machine decides — verifiably — whether to continue, how the response
//! accumulates, and when the step budget or an end-of-generation token
//! stops the loop.

use vstd::prelude::*;
use vstd::string::*;
use crate::message::{source_views, WebSource};
use crate::text::trimmed;

verus! {

/// The sampling/emitting loop emits at most this many tokens.
pub const MAX_GEN_STEPS: u32 = 512;

/// The model context window, in tokens; prompts beyond it are rejected
/// before any decode is attempted.
pub const CONTEXT_WINDOW: usize = 2048;

/// Errors of one generation request.
#[derive(Clone, Copy, PartialEq, Eq, Structural, Debug)]
pub enum GenError {
    /// The backend could not initialize a model.
    LoadFailure,
    /// Tokenization of the prompt failed.
    EncodingError,
    /// A decode step failed; the partial output is discarded.
    DecodeError,
    /// The prompt does not fit the context window.
    PromptTooLong,
}

/// The fixed description of an error.
pub open spec fn error_text(e: GenError) -> Seq<char> {
    match e {
        GenError::LoadFailure => "Mia's brain is not loaded!"@,
        GenError::EncodingError => "Tokenization failed"@,
        GenError::DecodeError => "Decode failed"@,
        GenError::PromptTooLong => "Prompt exceeds the context window"@,
    }
}

impl GenError {
    /// The fixed description of this error.
    pub fn message(&self) -> (s: &'static str)
        ensures
            s@ == error_text(*self),
    {
        match self {
            GenError::LoadFailure => "Mia's brain is not loaded!",
            GenError::EncodingError => "Tokenization failed",
            GenError::DecodeError => "Decode failed",
            GenError::PromptTooLong => "Prompt exceeds the context window",
        }
    }
}

/// Rejects a prompt whose token count exceeds the context window. The
/// check happens before any decode, so an overflow is surfaced rather than
/// discovered mid-decode.
pub fn check_prompt_fits(token_count: usize) -> (r: Result<(), GenError>)
    ensures
        (r is Ok) == (token_count <= CONTEXT_WINDOW),
        r matches Err(e) ==> e == GenError::PromptTooLong,
{
    if token_count <= CONTEXT_WINDOW {
        Result::Ok(())
    } else {
        Result::Err(GenError::PromptTooLong)
    }
}

/// The composite sampler configuration of one request: temperature scaling,
/// top-k filtering, top-p (nucleus) filtering and a seeded weighted draw.
/// Temperature is in hundredths, top-p in thousandths.
pub struct SamplerPlan {
    pub temperature_centi: u32,
    pub top_k: u32,
    pub top_p_milli: u32,
    pub min_keep: u32,
    pub seed: u32,
}

/// Relies on `rand::random::<u32>`: a freshly drawn random sampler seed.
/// Nothing can be promised of a random draw.
#[verifier::external_body]
fn random_seed() -> u32 {
    rand::random()
}

/// The sampler plan of one request: the mode's temperature, the fixed
/// top-k and top-p settings, and a fresh random seed.
pub fn sampler_plan(temperature_centi: u32) -> (p: SamplerPlan)
    ensures
        p.temperature_centi == temperature_centi,
        p.top_k == 40,
        p.top_p_milli == 950,
        p.min_keep == 1,
{
    SamplerPlan { temperature_centi, top_k: 40, top_p_milli: 950, min_keep: 1, seed: random_seed() }
}

/// One observation of the sampling loop: an end-of-generation token, or an
/// ordinary token together with its detokenized text fragment.
pub enum GenEvent {
    Eog,
    Piece(Seq<char>),
}

/// The sampling/emitting loop's state.
pub struct GenLoop {
    pub response: String,
    pub emitted: u32,
    pub done: bool,
    pub truncated: bool,
}

/// Mathematical view of a [`GenLoop`].
pub struct GenView {
    pub response: Seq<char>,
    pub emitted: u32,
    pub done: bool,
    pub truncated: bool,
}

impl View for GenLoop {
    type V = GenView;

    open spec fn view(&self) -> GenView {
        GenView {
            response: self.response@,
            emitted: self.emitted,
            done: self.done,
            truncated: self.truncated,
        }
    }
}

/// The loop's initial state: nothing emitted, not done.
pub open spec fn gen_init() -> GenView {
    GenView { response: Seq::empty(), emitted: 0, done: false, truncated: false }
}

/// The loop invariant: the emission count never passes the budget, and a
/// running loop still has budget left.
pub open spec fn gen_wf(s: GenView) -> bool {
    &&& s.emitted <= MAX_GEN_STEPS
    &&& !s.done ==> s.emitted < MAX_GEN_STEPS
    &&& s.truncated ==> s.done
}

/// One step of the loop: a finished loop ignores further events; an
/// end-of-generation token finishes it without emitting; any other token
/// appends its fragment, and exhausting the budget finishes the loop as
/// truncated.
pub open spec fn gen_step(s: GenView, e: GenEvent) -> GenView {
    if s.done {
        s
    } else {
        match e {
            GenEvent::Eog => GenView { done: true, ..s },
            GenEvent::Piece(p) => {
                let s2 = GenView {
                    response: s.response + p,
                    emitted: (s.emitted + 1) as u32,
                    done: s.done,
                    truncated: s.truncated,
                };
                if s.emitted + 1 >= MAX_GEN_STEPS {
                    GenView { done: true, truncated: true, ..s2 }
                } else {
                    s2
                }
            },
        }
    }
}

/// The state after a whole sequence of observations.
pub open spec fn gen_run(s: GenView, evs: Seq<GenEvent>) -> GenView
    decreases evs.len(),
{
    if evs.len() == 0 {
        s
    } else {
        gen_run(gen_step(s, evs[0]), evs.drop_first())
    }
}

/// The concatenated fragments of the ordinary tokens of an event sequence.
pub open spec fn pieces_concat(evs: Seq<GenEvent>) -> Seq<char>
    decreases evs.len(),
{
    if evs.len() == 0 {
        Seq::empty()
    } else {
        pieces_concat(evs.drop_last()) + (match evs.last() {
            GenEvent::Piece(p) => p,
            GenEvent::Eog => Seq::empty(),
        })
    }
}

impl GenLoop {
    /// A fresh loop.
    pub fn new() -> (g: GenLoop)
        ensures
            g@ == gen_init(),
            gen_wf(g@),
    {
        let g = GenLoop { response: String::new(), emitted: 0, done: false, truncated: false };
        proof {
            assert(g@.response =~= Seq::<char>::empty());
        }
        g
    }

    /// Reports one sampled token: `is_eog` when the model considers its
    /// answer complete, otherwise the token's detokenized fragment. Returns
    /// whether the loop continues.
    pub fn on_sampled(&mut self, is_eog: bool, piece: &str) -> (cont: bool)
        requires
            !old(self)@.done,
            gen_wf(old(self)@),
        ensures
            final(self)@ == gen_step(
                old(self)@,
                if is_eog {
                    GenEvent::Eog
                } else {
                    GenEvent::Piece(piece@)
                },
            ),
            gen_wf(final(self)@),
            cont == !final(self)@.done,
    {
        if is_eog {
            self.done = true;
            false
        } else {
            self.response.append(piece);
            self.emitted = self.emitted + 1;
            if self.emitted >= MAX_GEN_STEPS {
                self.done = true;
                self.truncated = true;
                false
            } else {
                true
            }
        }
    }

    /// Whether the loop has stopped.
    pub fn is_done(&self) -> (r: bool)
        ensures
            r == self@.done,
    {
        self.done
    }

    /// The outcome of a finished loop: the accumulated response trimmed of
    /// leading and trailing whitespace, the number of emitted tokens, and
    /// whether the step budget cut the answer off.
    pub fn finish(self) -> (r: (String, u32, bool))
        ensures
            r.0@ == trimmed(self@.response),
            r.1 == self@.emitted,
            r.2 == self@.truncated,
    {
        let text = crate::text::trim_text(self.response.as_str());
        (text, self.emitted, self.truncated)
    }
}

/// Every step preserves the loop invariant.
proof fn lemma_gen_step_wf(s: GenView, e: GenEvent)
    requires
        gen_wf(s),
    ensures
        gen_wf(gen_step(s, e)),
{
}

/// A whole run preserves the loop invariant.
proof fn lemma_gen_run_wf(s: GenView, evs: Seq<GenEvent>)
    requires
        gen_wf(s),
    ensures
        gen_wf(gen_run(s, evs)),
    decreases evs.len(),
{
    if evs.len() > 0 {
        lemma_gen_step_wf(s, evs[0]);
        lemma_gen_run_wf(gen_step(s, evs[0]), evs.drop_first());
    }
}

/// A finished loop ignores every further observation.
proof fn lemma_gen_run_done(s: GenView, evs: Seq<GenEvent>)
    requires
        s.done,
    ensures
        gen_run(s, evs) == s,
    decreases evs.len(),
{
    if evs.len() > 0 {
        lemma_gen_run_done(s, evs.drop_first());
    }
}

/// Running a sequence and then one more event is one more step.
proof fn lemma_gen_run_snoc(s: GenView, es: Seq<GenEvent>, e: GenEvent)
    ensures
        gen_run(s, es.push(e)) == gen_step(gen_run(s, es), e),
    decreases es.len(),
{
    let evs = es.push(e);
    assert(evs.len() == es.len() + 1);
    if es.len() == 0 {
        assert(evs[0] == e);
        assert(evs.drop_first() =~= Seq::<GenEvent>::empty());
        assert(gen_run(s, evs) == gen_run(gen_step(s, evs[0]), evs.drop_first()));
        assert(gen_run(gen_step(s, e), Seq::<GenEvent>::empty()) == gen_step(s, e));
        assert(gen_run(s, es) == s);
    } else {
        assert(evs[0] == es[0]);
        assert(evs.drop_first() =~= es.drop_first().push(e));
        assert(gen_run(s, evs) == gen_run(gen_step(s, evs[0]), evs.drop_first()));
        lemma_gen_run_snoc(gen_step(s, es[0]), es.drop_first(), e);
        assert(gen_run(s, es) == gen_run(gen_step(s, es[0]), es.drop_first()));
    }
}

/// A run splits at any point.
proof fn lemma_gen_run_split(s: GenView, evs: Seq<GenEvent>, k: int)
    requires
        0 <= k <= evs.len(),
    ensures
        gen_run(s, evs) == gen_run(gen_run(s, evs.take(k)), evs.skip(k)),
    decreases k,
{
    if k == 0 {
        assert(evs.take(0) =~= Seq::<GenEvent>::empty());
        assert(evs.skip(0) =~= evs);
    } else {
        assert(evs.take(k)[0] == evs[0]);
        assert(evs.take(k).drop_first() =~= evs.drop_first().take(k - 1));
        assert(evs.drop_first().skip(k - 1) =~= evs.skip(k));
        lemma_gen_run_split(gen_step(s, evs[0]), evs.drop_first(), k - 1);
    }
}

/// After a prefix of ordinary tokens that stays within the budget, the loop
/// is still running, with exactly those fragments accumulated.
proof fn lemma_gen_run_pieces(evs: Seq<GenEvent>, k: int)
    requires
        0 <= k <= evs.len(),
        k < MAX_GEN_STEPS,
        forall|j: int| 0 <= j < k ==> evs[j] is Piece,
    ensures
        gen_run(gen_init(), evs.take(k)) == (GenView {
            response: pieces_concat(evs.take(k)),
            emitted: k as u32,
            done: false,
            truncated: false,
        }),
    decreases k,
{
    if k == 0 {
        assert(evs.take(0) =~= Seq::<GenEvent>::empty());
    } else {
        lemma_gen_run_pieces(evs, k - 1);
        assert(evs.take(k) =~= evs.take(k - 1).push(evs[k - 1]));
        lemma_gen_run_snoc(gen_init(), evs.take(k - 1), evs[k - 1]);
        assert(evs.take(k).drop_last() =~= evs.take(k - 1));
        assert(evs.take(k).last() == evs[k - 1]);
    }
}

/// Law: from the initial state, no sequence of observations ever emits more
/// than the step budget of tokens.
pub proof fn lemma_gen_never_exceeds_budget(evs: Seq<GenEvent>)
    ensures
        gen_run(gen_init(), evs).emitted <= MAX_GEN_STEPS,
{
    lemma_gen_run_wf(gen_init(), evs);
}

/// Law: the loop stops exactly at the first end-of-generation token. When
/// the first such token arrives before the budget is exhausted, the loop
/// finishes untruncated with exactly the earlier fragments accumulated, and
/// everything after that token leaves the state unchanged.
pub proof fn lemma_gen_stops_at_first_eog(evs: Seq<GenEvent>, k: int)
    requires
        0 <= k < evs.len(),
        evs[k] is Eog,
        forall|j: int| 0 <= j < k ==> evs[j] is Piece,
        k < MAX_GEN_STEPS,
    ensures
        gen_run(gen_init(), evs) == (GenView {
            response: pieces_concat(evs.take(k)),
            emitted: k as u32,
            done: true,
            truncated: false,
        }),
{
    lemma_gen_run_pieces(evs, k);
    let mid = gen_run(gen_init(), evs.take(k));
    assert(evs.take(k + 1) =~= evs.take(k).push(evs[k]));
    lemma_gen_run_snoc(gen_init(), evs.take(k), evs[k]);
    let stopped = gen_run(gen_init(), evs.take(k + 1));
    assert(stopped == gen_step(mid, evs[k]));
    assert(stopped.done);
    lemma_gen_run_split(gen_init(), evs, k + 1);
    lemma_gen_run_done(stopped, evs.skip(k + 1));
}

/// Tokens per second in thousandths, over the elapsed wall time of the
/// sampling loop alone (zero when no time elapsed).
pub open spec fn spec_throughput_milli(tokens: u32, elapsed_ms: u64) -> u64 {
    if elapsed_ms == 0 {
        0u64
    } else {
        ((tokens * 1000000) / (elapsed_ms as int)) as u64
    }
}

/// Computes the throughput of one request.
pub fn throughput_milli(tokens: u32, elapsed_ms: u64) -> (r: u64)
    ensures
        r == spec_throughput_milli(tokens, elapsed_ms),
{
    if elapsed_ms == 0 {
        0
    } else {
        let prod: u64 = (tokens as u64) * 1000000;
        prod / elapsed_ms
    }
}

/// What one answered request hands back to the caller: the response text,
/// the number of tokens emitted, the throughput in thousandths of tokens
/// per second, and the citable sources gathered for it.
pub struct MiaResponse {
    pub content: String,
    pub tokens: u32,
    pub speed_milli: u64,
    pub sources: Vec<WebSource>,
}

/// Packages the outcome of one request.
pub fn build_response(content: String, tokens: u32, elapsed_ms: u64, sources: Vec<WebSource>) -> (r:
    MiaResponse)
    ensures
        r.content@ == content@,
        r.tokens == tokens,
        r.speed_milli == spec_throughput_milli(tokens, elapsed_ms),
        source_views(r.sources@) == source_views(sources@),
{
    let speed_milli = throughput_milli(tokens, elapsed_ms);
    MiaResponse { content, tokens, speed_milli, sources }
}

} // verus!
