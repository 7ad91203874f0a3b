use crate::engine::backend::{
    inferflow_reply, llama_fragments, llama_reply, mlx_reply, progress_fragments,
    InferflowBackend, LlamaCppBackend, MlxBackend,
};
use crate::engine::{BackendType, InferenceResponse};
use crate::pattern::{contains, contains_chars};
use crate::text::{chars_of, lowercase, strings_of, to_lowercase};
use crate::words::tokens;
use std::path::PathBuf;
use vstd::prelude::*;

verus! {

/// What was found out about the machine.
#[derive(Debug, Clone)]
pub struct HostProfile {
    /// The system is macOS.
    pub macos: bool,
    /// The name of the first CPU; empty if there is none.
    pub cpu_name: String,
    /// An NVIDIA GPU is present.
    pub nvidia_gpu: bool,
}

/// The CPU's name tells of Apple Silicon.
pub open spec fn names_apple_silicon(cpu_name: Seq<char>) -> bool {
    let name = lowercase(cpu_name);
    contains(name, "apple"@) || contains(name, "m1"@) || contains(name, "m2"@) || contains(
        name,
        "m3"@,
    )
}

/// The backend that suits a machine best: MLX on a Mac with Apple Silicon,
/// else Inferflow where there is an NVIDIA GPU, else llama.cpp.
pub open spec fn best_backend(macos: bool, cpu_name: Seq<char>, nvidia_gpu: bool) -> BackendType {
    if macos && names_apple_silicon(cpu_name) {
        BackendType::MlxSidecar
    } else if nvidia_gpu {
        BackendType::InferflowCpp
    } else {
        BackendType::LlamaCppCpu
    }
}

/// The backend that suits the host best.
pub fn select_backend(host: &HostProfile) -> (r: BackendType)
    ensures
        r == best_backend(host.macos, host.cpu_name@, host.nvidia_gpu),
{
    if host.macos {
        let name = to_lowercase(&chars_of(host.cpu_name.as_str()));
        if contains_chars(&name, &chars_of("apple")) || contains_chars(&name, &chars_of("m1"))
            || contains_chars(&name, &chars_of("m2")) || contains_chars(&name, &chars_of("m3")) {
            return BackendType::MlxSidecar;
        }
    }
    if host.nvidia_gpu {
        BackendType::InferflowCpp
    } else {
        BackendType::LlamaCppCpu
    }
}

/// The backend in use.
enum Backend {
    Mlx(MlxBackend),
    Inferflow(InferflowBackend),
    LlamaCpp(LlamaCppBackend),
}

/// Holds the backend that answers prompts.
pub struct EngineManager {
    backend: Backend,
    current_backend_type: BackendType,
    initialized: bool,
}

impl EngineManager {
    #[verifier::type_invariant]
    spec fn inv(&self) -> bool {
        self.current_backend_type == match self.backend {
            Backend::Mlx(_) => BackendType::MlxSidecar,
            Backend::Inferflow(_) => BackendType::InferflowCpp,
            Backend::LlamaCpp(_) => BackendType::LlamaCppCpu,
        }
    }

    /// The kind of the backend in use.
    pub closed spec fn kind(&self) -> BackendType {
        self.current_backend_type
    }

    /// Whether `initialize` was called.
    pub closed spec fn ready(&self) -> bool {
        self.initialized
    }

    /// A manager with the llama.cpp backend, not yet initialized.
    pub fn new() -> (r: Self)
        ensures
            r.kind() == BackendType::LlamaCppCpu,
            !r.ready(),
    {
        EngineManager {
            backend: Backend::LlamaCpp(LlamaCppBackend::new()),
            current_backend_type: BackendType::LlamaCppCpu,
            initialized: false,
        }
    }

    /// Puts the backend in use that suits the host best, and names it.
    pub fn detect_and_select_backend(&mut self, host: &HostProfile) -> (r: BackendType)
        ensures
            r == best_backend(host.macos, host.cpu_name@, host.nvidia_gpu),
            final(self).kind() == r,
            final(self).ready() == old(self).ready(),
    {
        let kind = select_backend(host);
        let ready = self.initialized;
        let backend = match kind {
            BackendType::MlxSidecar => Backend::Mlx(MlxBackend::new()),
            BackendType::InferflowCpp => Backend::Inferflow(InferflowBackend::new()),
            _ => Backend::LlamaCpp(LlamaCppBackend::new()),
        };
        *self = EngineManager { backend, current_backend_type: kind, initialized: ready };
        kind
    }

    /// Makes the backend in use ready.
    pub fn initialize(&mut self, model_path: PathBuf, model_found: bool)
        ensures
            final(self).ready(),
            final(self).kind() == old(self).kind(),
    {
        proof {
            use_type_invariant(&*self);
        }
        let kind = self.current_backend_type;
        let mut taken = EngineManager {
            backend: Backend::Mlx(MlxBackend::new()),
            current_backend_type: BackendType::MlxSidecar,
            initialized: false,
        };
        std::mem::swap(self, &mut taken);
        proof {
            use_type_invariant(&taken);
        }
        let backend = match taken.backend {
            Backend::LlamaCpp(mut b) => {
                b.initialize(model_path, model_found);
                Backend::LlamaCpp(b)
            },
            other => other,
        };
        *self = EngineManager { backend, current_backend_type: kind, initialized: true };
    }

    /// Whether `initialize` was called.
    pub fn is_initialized(&self) -> (r: bool)
        ensures
            r == self.ready(),
    {
        self.initialized
    }

    /// The text that the backend of this kind answers `prompt` with.
    pub open spec fn reply_tokens(kind: BackendType, prompt: Seq<char>) -> Seq<Seq<char>> {
        match kind {
            BackendType::MlxSidecar => tokens(mlx_reply(prompt)),
            BackendType::InferflowCpp => tokens(inferflow_reply(prompt)),
            _ => seq![llama_reply(prompt)],
        }
    }

    /// The pieces that the backend of this kind streams its answer in.
    pub open spec fn reply_fragments(kind: BackendType, prompt: Seq<char>) -> Seq<Seq<char>> {
        match kind {
            BackendType::MlxSidecar => progress_fragments(prompt),
            BackendType::InferflowCpp => progress_fragments(prompt),
            _ => llama_fragments(prompt),
        }
    }

    /// The answer of the backend in use to `prompt`.
    pub fn infer(&self, prompt: &str) -> (r: InferenceResponse)
        ensures
            strings_of(r.tokens@) == Self::reply_tokens(self.kind(), prompt@),
            r.finish_reason@ == "stop"@,
    {
        proof {
            use_type_invariant(self);
        }
        match &self.backend {
            Backend::Mlx(b) => b.infer(prompt),
            Backend::Inferflow(b) => b.infer(prompt),
            Backend::LlamaCpp(b) => b.infer(prompt),
        }
    }

    /// The pieces that the backend in use streams its answer to `prompt` in.
    pub fn infer_stream(&self, prompt: &str) -> (r: Vec<String>)
        ensures
            strings_of(r@) == Self::reply_fragments(self.kind(), prompt@),
    {
        proof {
            use_type_invariant(self);
        }
        match &self.backend {
            Backend::Mlx(b) => b.infer_stream(prompt),
            Backend::Inferflow(b) => b.infer_stream(prompt),
            Backend::LlamaCpp(b) => b.infer_stream(prompt),
        }
    }

    /// The kind of the backend in use.
    pub fn current_backend_type(&self) -> (r: BackendType)
        ensures
            r == self.kind(),
    {
        self.current_backend_type
    }
}

impl Default for EngineManager {
    fn default() -> (r: Self)
        ensures
            r.kind() == BackendType::LlamaCppCpu,
            !r.ready(),
    {
        EngineManager::new()
    }
}

} // verus!
