use crate::text::strings_of;
use vstd::prelude::*;

pub mod backend;
pub mod manager;

pub use backend::{InferflowBackend, LlamaCppBackend, MlxBackend};
pub use manager::{EngineManager, HostProfile};

verus! {

/// The kinds of backend that can answer a prompt.
#[derive(Debug, Clone, Copy, PartialEq, Eq, Structural)]
pub enum BackendType {
    /// The backend for Apple Silicon.
    MlxSidecar,
    /// The backend for machines with an NVIDIA GPU.
    InferflowCpp,
    /// The backend that runs on any CPU.
    LlamaCppCpu,
    /// Inference spread over the machines of a swarm.
    Swarm,
}

/// What a backend answered: the pieces of its text, and why it stopped.
#[derive(Debug, Clone)]
pub struct InferenceResponse {
    pub tokens: Vec<String>,
    pub finish_reason: String,
}

/// Why a backend gave no answer.
#[derive(Debug, Clone, PartialEq, Eq)]
pub enum BackendError {
    /// The backend could not be reached; `reason` says why.
    Unavailable { reason: String },
    /// The backend answered with nothing, or with what is no answer.
    Malformed { reason: String },
    /// The backend took longer than it may.
    Timeout,
}

/// An error of a backend as the contracts see it.
pub enum BackendErrorView {
    Unavailable { reason: Seq<char> },
    Malformed { reason: Seq<char> },
    Timeout,
}

impl View for BackendError {
    type V = BackendErrorView;

    open spec fn view(&self) -> BackendErrorView {
        match self {
            BackendError::Unavailable { reason } => BackendErrorView::Unavailable {
                reason: reason@,
            },
            BackendError::Malformed { reason } => BackendErrorView::Malformed { reason: reason@ },
            BackendError::Timeout => BackendErrorView::Timeout,
        }
    }
}

/// The pieces one after the other, with nothing between them.
pub open spec fn concat(parts: Seq<Seq<char>>) -> Seq<char>
    decreases parts.len(),
{
    if parts.len() == 0 {
        Seq::empty()
    } else {
        concat(parts.drop_last()) + parts.last()
    }
}

impl InferenceResponse {
    /// The text of the answer.
    pub open spec fn text(&self) -> Seq<char> {
        concat(strings_of(self.tokens@))
    }

    /// The text of the answer: its tokens one after the other.
    pub fn full_text(&self) -> (r: String)
        ensures
            r@ == self.text(),
    {
        let mut out = String::new();
        let ghost parts = strings_of(self.tokens@);
        let mut i: usize = 0;
        while i < self.tokens.len()
            invariant
                i <= self.tokens.len(),
                parts == strings_of(self.tokens@),
                out@ == concat(parts.take(i as int)),
            decreases self.tokens.len() - i,
        {
            assert(parts.take(i + 1).drop_last() == parts.take(i as int));
            out.append(self.tokens[i].as_str());
            i += 1;
        }
        assert(parts.take(self.tokens.len() as int) == parts);
        out
    }
}

} // verus!
