//! Model lifecycle: the handle's loaded/unloaded state and the decisions
//! around loading on demand and releasing deterministically. The actual
//! backend load and the freeing of accelerator memory are the surrounding
//! application's business; it keeps its model resource in step with this
//! state and drops it whenever `release` says so.

use vstd::prelude::*;
use vstd::string::*;

verus! {

/// The model is loaded with this many layers offloaded to the accelerator.
pub const GPU_LAYERS: u32 = 25;

/// The state of the single model handle of the process.
#[derive(Clone, Copy, PartialEq, Eq, Structural, Debug)]
pub enum ModelState {
    Unloaded,
    Loaded,
}

/// The model handle: owns the loaded/unloaded state.
pub struct ModelHandle {
    pub state: ModelState,
}

/// The state after a release: always unloaded, whatever held before.
pub open spec fn released(s: ModelState) -> ModelState {
    ModelState::Unloaded
}

impl ModelHandle {
    /// A fresh handle: nothing loaded.
    pub fn new() -> (h: ModelHandle)
        ensures
            h.state is Unloaded,
    {
        ModelHandle { state: ModelState::Unloaded }
    }

    /// The load decision of `ensure_loaded`: load only when unloaded; a
    /// loaded handle needs nothing (idempotence).
    pub fn needs_load(&self) -> (r: bool)
        ensures
            r == (self.state is Unloaded),
    {
        match self.state {
            ModelState::Unloaded => true,
            ModelState::Loaded => false,
        }
    }

    /// Whether a model is loaded.
    pub fn is_loaded(&self) -> (r: bool)
        ensures
            r == (self.state is Loaded),
    {
        match self.state {
            ModelState::Loaded => true,
            ModelState::Unloaded => false,
        }
    }

    /// Records that the backend finished loading a model.
    pub fn mark_loaded(&mut self)
        ensures
            final(self).state is Loaded,
    {
        self.state = ModelState::Loaded;
    }

    /// Releases the model: always succeeds, safe when nothing is loaded,
    /// and leaves the handle unloaded. The caller drops its backend
    /// resource alongside, so memory is reclaimed deterministically.
    pub fn release(&mut self)
        ensures
            final(self).state == released(old(self).state),
            final(self).state is Unloaded,
    {
        self.state = ModelState::Unloaded;
    }
}

/// Law: releasing is total and idempotent — a release leaves the handle
/// unloaded, and releasing again succeeds and leaves it unloaded both
/// times.
pub proof fn lemma_release_idempotent(s: ModelState)
    ensures
        released(s) is Unloaded,
        released(released(s)) is Unloaded,
        released(released(s)) == released(s),
{
}

/// The fixed path the model is loaded from.
pub fn default_model_path() -> (s: String)
    ensures
        s@ == "models/mia-brain-q4.gguf"@,
{
    String::from_str("models/mia-brain-q4.gguf")
}

} // verus!
