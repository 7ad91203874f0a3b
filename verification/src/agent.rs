use vstd::prelude::*;

pub mod executor;
pub mod utils;

pub use executor::{AgentCommand, AgentError, AgentEvent, AgentExecutor, AgentRun, Phase};
pub use utils::{extract_code_block, extract_keywords, extract_search_query};

verus! {

/// What the agent is asked to do.
#[derive(Debug, Clone)]
pub struct AgentTask {
    pub instruction: String,
    /// The text to search the vault by; taken from the instruction if absent.
    pub context: Option<String>,
}

/// A task as the contracts see it.
pub struct AgentTaskView {
    pub instruction: Seq<char>,
    pub context: Option<Seq<char>>,
}

impl View for AgentTask {
    type V = AgentTaskView;

    open spec fn view(&self) -> AgentTaskView {
        AgentTaskView {
            instruction: self.instruction@,
            context: match self.context {
                Some(q) => Some(q@),
                None => None,
            },
        }
    }
}

/// Something the agent does in answer to a task.
#[derive(Debug, Clone)]
pub enum AgentAction {
    FileOperation { path: String, operation: String },
    CodeExecution { code: String, language: String },
    SearchQuery { query: String },
}

/// An action as the contracts see it.
pub enum AgentActionView {
    FileOperation { path: Seq<char>, operation: Seq<char> },
    CodeExecution { code: Seq<char>, language: Seq<char> },
    SearchQuery { query: Seq<char> },
}

impl View for AgentAction {
    type V = AgentActionView;

    open spec fn view(&self) -> AgentActionView {
        match self {
            AgentAction::FileOperation { path, operation } => AgentActionView::FileOperation {
                path: path@,
                operation: operation@,
            },
            AgentAction::CodeExecution { code, language } => AgentActionView::CodeExecution {
                code: code@,
                language: language@,
            },
            AgentAction::SearchQuery { query } => AgentActionView::SearchQuery { query: query@ },
        }
    }
}

/// What an action left behind.
#[derive(Debug, Clone)]
pub struct Artifact {
    pub content: String,
    pub mime_type: String,
}

/// An artifact as the contracts see it.
pub struct ArtifactView {
    pub content: Seq<char>,
    pub mime_type: Seq<char>,
}

impl View for Artifact {
    type V = ArtifactView;

    open spec fn view(&self) -> ArtifactView {
        ArtifactView { content: self.content@, mime_type: self.mime_type@ }
    }
}

/// The outcome of a task: what the backend said, what was done about it,
/// and what that left behind.
#[derive(Debug, Clone)]
pub struct AgentResponse {
    pub reasoning: String,
    pub actions: Vec<AgentAction>,
    pub artifacts: Vec<Artifact>,
}

/// A response as the contracts see it.
pub struct AgentResponseView {
    pub reasoning: Seq<char>,
    pub actions: Seq<AgentActionView>,
    pub artifacts: Seq<ArtifactView>,
}

/// The views of the actions.
pub open spec fn actions_of(v: Seq<AgentAction>) -> Seq<AgentActionView> {
    Seq::new(v.len(), |i: int| v[i]@)
}

/// The views of the artifacts.
pub open spec fn artifacts_of(v: Seq<Artifact>) -> Seq<ArtifactView> {
    Seq::new(v.len(), |i: int| v[i]@)
}

impl View for AgentResponse {
    type V = AgentResponseView;

    open spec fn view(&self) -> AgentResponseView {
        AgentResponseView {
            reasoning: self.reasoning@,
            actions: actions_of(self.actions@),
            artifacts: artifacts_of(self.artifacts@),
        }
    }
}

} // verus!
