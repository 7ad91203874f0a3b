use crate::agent::utils::{code_block, extract_code_block, extract_keywords, keywords};
use crate::agent::{
    actions_of, artifacts_of, AgentAction, AgentActionView, AgentResponse, AgentResponseView,
    AgentTask, AgentTaskView, Artifact, ArtifactView,
};
use crate::engine::{BackendError, BackendErrorView, InferenceResponse};
use crate::pattern::{contains, contains_chars};
use crate::sandbox::{ExecutionResult, SandboxError, SandboxErrorView};
use crate::text::{
    append, chars_of, decimal, decimal_of, digit, digit_of, lowercase, slice_of, string_of,
    to_lowercase, views_of,
};
use crate::vault::features::{terms, MAX_TEXT_TERMS};
use crate::vault::similarity::hundredths;
use crate::vault::database::search_results;
use crate::vault::{
    results_of, SearchResult, SearchResultView, Similarity, StoreError, VaultDatabase,
};
use vstd::prelude::*;

verus! {

/// How many documents are looked up to fill a prompt.
pub const CONTEXT_LIMIT: usize = 5;

/// How many documents a search asked for by the backend returns.
pub const SEARCH_LIMIT: usize = 10;

/// The most characters of a document that a prompt shows.
pub const PROMPT_PREVIEW: usize = 200;

/// The most characters of a document that a list of results shows.
pub const RESULT_PREVIEW: usize = 150;

/// What every prompt begins with.
pub open spec fn preamble() -> Seq<char> {
    "你是一个本地 AI Agent，名为 Silo。你的任务是帮助用户完成各种任务，同时确保所有操作都在本地完成，保护用户隐私。\n\n"@
}

/// What every prompt ends with.
pub open spec fn closing() -> Seq<char> {
    "请分析任务并给出执行计划。如果需要执行代码、搜索文档或操作文件，请明确说明。"@
}

/// The text up to `n` characters; three dots stand for what was cut.
pub open spec fn preview(content: Seq<char>, n: int) -> Seq<char> {
    if content.len() > n {
        content.take(n) + "..."@
    } else {
        content
    }
}

/// A number of hundredths with two decimals, as in `0.58`.
pub open spec fn two_decimals(k: int) -> Seq<char> {
    seq![digit(k / 100), '.', digit(k / 10 % 10), digit(k % 10)]
}

/// A similarity as its cosine with two decimals.
pub open spec fn score_text(s: (nat, nat)) -> Seq<char> {
    two_decimals(hundredths(s))
}

/// One document of the context as the prompt shows it.
pub open spec fn excerpt(number: nat, r: SearchResultView) -> Seq<char> {
    "[文档 "@ + decimal(number) + "] (相似度: "@ + score_text(r.similarity) + ")\n"@ + preview(
        r.document.content,
        PROMPT_PREVIEW as int,
    ) + "\n\n"@
}

/// The first `k` documents of the context, numbered from one.
pub open spec fn excerpts(context: Seq<SearchResultView>, k: int) -> Seq<char>
    decreases k,
{
    if k <= 0 {
        Seq::empty()
    } else {
        excerpts(context, k - 1) + excerpt(k as nat, context[k - 1])
    }
}

/// The prompt for an instruction with the context found for it.
pub open spec fn prompt_text(instruction: Seq<char>, context: Seq<SearchResultView>) -> Seq<char> {
    preamble() + "用户指令: "@ + instruction + "\n\n"@ + (if context.len() > 0 {
        "相关上下文（来自本地知识库）:\n"@ + excerpts(context, context.len() as int)
    } else {
        Seq::empty()
    }) + closing()
}

/// The text that the vault is searched by for a task: the one given with
/// it, or else the keywords of the instruction.
pub open spec fn context_query(task: AgentTaskView) -> Seq<char> {
    match task.context {
        Some(q) => q,
        None => keywords(task.instruction),
    }
}

/// One found document as a list of results shows it.
pub open spec fn result_line(number: nat, r: SearchResultView) -> Seq<char> {
    "["@ + decimal(number) + "] (相似度: "@ + score_text(r.similarity) + ")\n"@ + preview(
        r.document.content,
        RESULT_PREVIEW as int,
    ) + "\n\n"@
}

/// The first `k` found documents, numbered from one.
pub open spec fn result_lines(found: Seq<SearchResultView>, k: int) -> Seq<char>
    decreases k,
{
    if k <= 0 {
        Seq::empty()
    } else {
        result_lines(found, k - 1) + result_line(k as nat, found[k - 1])
    }
}

/// What a search leaves behind: the number of results, then each of them.
pub open spec fn search_artifact(found: Seq<SearchResultView>) -> ArtifactView {
    ArtifactView {
        content: "找到 "@ + decimal(found.len()) + " 个相关结果:\n\n"@ + result_lines(
            found,
            found.len() as int,
        ),
        mime_type: "text/markdown"@,
    }
}

/// What a run of code leaves behind: its output.
pub open spec fn output_artifact(stdout: Seq<char>) -> ArtifactView {
    ArtifactView { content: stdout, mime_type: "text/plain"@ }
}

/// Words that ask for a search.
pub open spec fn search_words() -> Seq<Seq<char>> {
    seq!["搜索"@, "查找"@, "search"@]
}

/// Words that ask for code to be run.
pub open spec fn code_words() -> Seq<Seq<char>> {
    seq!["code"@, "execute"@, "run"@, "代码"@, "执行"@, "运行"@]
}

/// Names of languages that the sandbox runs.
pub open spec fn language_names() -> Seq<Seq<char>> {
    seq!["python"@]
}

/// Words that speak of work on files.
pub open spec fn file_words() -> Seq<Seq<char>> {
    seq!["文件"@, "重命名"@, "移动"@]
}

/// One of `words` stands somewhere in `text`.
pub open spec fn mentions_any(text: Seq<char>, words: Seq<Seq<char>>) -> bool {
    exists|i: int| 0 <= i < words.len() && contains(text, #[trigger] words[i])
}

/// One of `words` stands in the answer in whatever case it is written
/// there, or in the instruction as it is written or in lower case.
pub open spec fn asked_for(
    reasoning: Seq<char>,
    instruction: Seq<char>,
    words: Seq<Seq<char>>,
) -> bool {
    ||| mentions_any(lowercase(reasoning), words)
    ||| mentions_any(instruction, words)
    ||| mentions_any(lowercase(instruction), words)
}

/// The answer or the instruction asks for a search.
pub open spec fn wants_search(reasoning: Seq<char>, instruction: Seq<char>) -> bool {
    asked_for(reasoning, instruction, search_words())
}

/// The answer or the instruction asks for code to be run, or the
/// instruction names a language.
pub open spec fn wants_code(reasoning: Seq<char>, instruction: Seq<char>) -> bool {
    ||| asked_for(reasoning, instruction, code_words())
    ||| mentions_any(instruction, language_names())
    ||| mentions_any(lowercase(instruction), language_names())
}

/// The answer or the instruction speaks of work on files.
pub open spec fn wants_file_operation(reasoning: Seq<char>, instruction: Seq<char>) -> bool {
    asked_for(reasoning, instruction, file_words())
}

/// The search that an answer calls for, if any.
pub open spec fn search_actions(reasoning: Seq<char>, instruction: Seq<char>) -> Seq<
    AgentActionView,
> {
    if wants_search(reasoning, instruction) && keywords(instruction).len() > 0 {
        seq![AgentActionView::SearchQuery { query: keywords(instruction) }]
    } else {
        Seq::empty()
    }
}

/// The run of code that an answer calls for, if any.
pub open spec fn code_actions(reasoning: Seq<char>, instruction: Seq<char>) -> Seq<
    AgentActionView,
> {
    if wants_code(reasoning, instruction) && code_block(reasoning) is Some {
        seq![
            AgentActionView::CodeExecution {
                code: code_block(reasoning).unwrap(),
                language: "python"@,
            },
        ]
    } else {
        Seq::empty()
    }
}

/// The actions that an answer to an instruction calls for: a search, then
/// a run of code. Work on files is never among them.
pub open spec fn parsed_actions(reasoning: Seq<char>, instruction: Seq<char>) -> Seq<
    AgentActionView,
> {
    search_actions(reasoning, instruction) + code_actions(reasoning, instruction)
}

/// Why a task failed.
#[derive(Debug, Clone, PartialEq, Eq)]
pub enum AgentError {
    /// The vault turned a text away.
    Store(StoreError),
    /// The backend gave no answer.
    Backend(BackendError),
    /// The sandbox did not run the code.
    Sandbox(SandboxError),
    /// An event came that the run was not waiting for.
    OutOfTurn,
}

/// An error of a task as the contracts see it.
pub enum AgentErrorView {
    Store(StoreError),
    Backend(BackendErrorView),
    Sandbox(SandboxErrorView),
    OutOfTurn,
}

impl View for AgentError {
    type V = AgentErrorView;

    open spec fn view(&self) -> AgentErrorView {
        match self {
            AgentError::Store(e) => AgentErrorView::Store(*e),
            AgentError::Backend(e) => AgentErrorView::Backend(e@),
            AgentError::Sandbox(e) => AgentErrorView::Sandbox(e@),
            AgentError::OutOfTurn => AgentErrorView::OutOfTurn,
        }
    }
}

/// What happened outside since the last command.
#[derive(Debug, Clone)]
pub enum AgentEvent {
    /// The backend answered.
    Inferred(InferenceResponse),
    /// The backend gave no answer.
    InferenceFailed(BackendError),
    /// The sandbox ran the code; an exit code other than zero is a result too.
    Executed(ExecutionResult),
    /// The sandbox gave no result.
    ExecutionFailed(SandboxError),
}

/// What is to happen outside next, or how the task ended.
#[derive(Debug, Clone)]
pub enum AgentCommand {
    Infer { prompt: String },
    Execute { code: String, language: String },
    Respond(AgentResponse),
    Fail(AgentError),
}

/// A command as the contracts see it.
pub enum AgentCommandView {
    Infer { prompt: Seq<char> },
    Execute { code: Seq<char>, language: Seq<char> },
    Respond(AgentResponseView),
    Fail(AgentErrorView),
}

impl View for AgentCommand {
    type V = AgentCommandView;

    open spec fn view(&self) -> AgentCommandView {
        match self {
            AgentCommand::Infer { prompt } => AgentCommandView::Infer { prompt: prompt@ },
            AgentCommand::Execute { code, language } => AgentCommandView::Execute {
                code: code@,
                language: language@,
            },
            AgentCommand::Respond(r) => AgentCommandView::Respond(r@),
            AgentCommand::Fail(e) => AgentCommandView::Fail(e@),
        }
    }
}

/// What a run is waiting for.
#[derive(Debug, Clone, Copy, PartialEq, Eq, Structural)]
pub enum Phase {
    AwaitingInference,
    AwaitingExecution,
    Closed,
}

/// A task under way.
#[derive(Debug)]
pub struct AgentRun {
    phase: Phase,
    instruction: String,
    reasoning: String,
    actions: Vec<AgentAction>,
    next: usize,
    artifacts: Vec<Artifact>,
}

/// A run as the contracts see it.
pub struct AgentRunView {
    pub phase: Phase,
    pub instruction: Seq<char>,
    pub reasoning: Seq<char>,
    pub actions: Seq<AgentActionView>,
    pub next: int,
    pub artifacts: Seq<ArtifactView>,
}

impl View for AgentRun {
    type V = AgentRunView;

    closed spec fn view(&self) -> AgentRunView {
        AgentRunView {
            phase: self.phase,
            instruction: self.instruction@,
            reasoning: self.reasoning@,
            actions: actions_of(self.actions@),
            next: self.next as int,
            artifacts: artifacts_of(self.artifacts@),
        }
    }
}

/// A run that is over: it holds nothing and waits for nothing.
pub open spec fn closed_run() -> AgentRunView {
    AgentRunView {
        phase: Phase::Closed,
        instruction: Seq::empty(),
        reasoning: Seq::empty(),
        actions: Seq::empty(),
        next: 0,
        artifacts: Seq::empty(),
    }
}

/// How far the actions from `next` on can be carried out inside: searches
/// are made and leave their artifact, work on files is passed over. It ends
/// before a run of code, at the end, or at a search that the vault turns
/// away. Gives the position reached, the artifacts, and that error if any.
pub open spec fn drained(
    docs: Seq<crate::vault::DocumentView>,
    actions: Seq<AgentActionView>,
    next: int,
    artifacts: Seq<ArtifactView>,
) -> (int, Seq<ArtifactView>, Option<StoreError>)
    decreases actions.len() - next + 1,
{
    if next < 0 || next >= actions.len() {
        (next, artifacts, None)
    } else {
        match actions[next] {
            AgentActionView::CodeExecution { .. } => (next, artifacts, None),
            AgentActionView::FileOperation { .. } => drained(docs, actions, next + 1, artifacts),
            AgentActionView::SearchQuery { query } => if terms(query).len() > MAX_TEXT_TERMS {
                (next, artifacts, Some(StoreError::TextTooLong))
            } else {
                drained(
                    docs,
                    actions,
                    next + 1,
                    artifacts.push(
                        search_artifact(search_results(docs, query, SEARCH_LIMIT as int)),
                    ),
                )
            },
        }
    }
}

/// What holds of `drained`: it goes forward and not past the end; it
/// keeps the artifacts it was given and adds to them; and where it ends
/// before the end without an error, a run of code is next.
pub proof fn lemma_drained(
    docs: Seq<crate::vault::DocumentView>,
    actions: Seq<AgentActionView>,
    next: int,
    artifacts: Seq<ArtifactView>,
)
    requires
        0 <= next <= actions.len(),
    ensures
        ({
            let (reached, left, error) = drained(docs, actions, next, artifacts);
            &&& next <= reached <= actions.len()
            &&& artifacts.len() <= left.len() <= artifacts.len() + (reached - next)
            &&& left.take(artifacts.len() as int) == artifacts
            &&& error is None && reached < actions.len() ==> actions[reached]
                is CodeExecution
            &&& error is Some ==> reached < actions.len() && actions[reached] is SearchQuery
        }),
    decreases actions.len() - next + 1,
{
    if next < actions.len() {
        match actions[next] {
            AgentActionView::CodeExecution { .. } => {
                assert(artifacts.take(artifacts.len() as int) == artifacts);
            },
            AgentActionView::FileOperation { .. } => {
                lemma_drained(docs, actions, next + 1, artifacts);
            },
            AgentActionView::SearchQuery { query } => {
                if terms(query).len() > MAX_TEXT_TERMS {
                    assert(artifacts.take(artifacts.len() as int) == artifacts);
                } else {
                    let more = artifacts.push(
                        search_artifact(search_results(docs, query, SEARCH_LIMIT as int)),
                    );
                    lemma_drained(docs, actions, next + 1, more);
                    let left = drained(docs, actions, next + 1, more).1;
                    assert(left.take(artifacts.len() as int) == left.take(
                        more.len() as int,
                    ).take(artifacts.len() as int));
                    assert(more.take(artifacts.len() as int) == artifacts);
                }
            },
        }
    } else {
        assert(artifacts.take(artifacts.len() as int) == artifacts);
    }
}

/// The state and the command after the actions from `next` on were carried
/// out as far as they can be inside.
pub open spec fn carried_on(
    docs: Seq<crate::vault::DocumentView>,
    instruction: Seq<char>,
    reasoning: Seq<char>,
    actions: Seq<AgentActionView>,
    next: int,
    artifacts: Seq<ArtifactView>,
) -> (AgentRunView, AgentCommandView) {
    let (reached, left, error) = drained(docs, actions, next, artifacts);
    match error {
        Some(e) => (closed_run(), AgentCommandView::Fail(AgentErrorView::Store(e))),
        None => if 0 <= reached < actions.len() {
            match actions[reached] {
                AgentActionView::CodeExecution { code, language } => (
                    AgentRunView {
                        phase: Phase::AwaitingExecution,
                        instruction,
                        reasoning,
                        actions,
                        next: reached,
                        artifacts: left,
                    },
                    AgentCommandView::Execute { code, language },
                ),
                _ => (closed_run(), AgentCommandView::Fail(AgentErrorView::OutOfTurn)),
            }
        } else {
            (
                closed_run(),
                AgentCommandView::Respond(AgentResponseView { reasoning, actions, artifacts: left }),
            )
        },
    }
}

/// The state and the command with which a task begins.
pub open spec fn begun(docs: Seq<crate::vault::DocumentView>, task: AgentTaskView) -> (
    AgentRunView,
    AgentCommandView,
) {
    if terms(context_query(task)).len() > MAX_TEXT_TERMS {
        (closed_run(), AgentCommandView::Fail(AgentErrorView::Store(StoreError::TextTooLong)))
    } else {
        (
            AgentRunView {
                phase: Phase::AwaitingInference,
                instruction: task.instruction,
                reasoning: Seq::empty(),
                actions: Seq::empty(),
                next: 0,
                artifacts: Seq::empty(),
            },
            AgentCommandView::Infer {
                prompt: prompt_text(
                    task.instruction,
                    search_results(docs, context_query(task), CONTEXT_LIMIT as int),
                ),
            },
        )
    }
}

/// The state and the command after the backend answered with `reasoning`.
pub open spec fn after_inference(
    docs: Seq<crate::vault::DocumentView>,
    run: AgentRunView,
    reasoning: Seq<char>,
) -> (AgentRunView, AgentCommandView) {
    carried_on(
        docs,
        run.instruction,
        reasoning,
        parsed_actions(reasoning, run.instruction),
        0,
        Seq::empty(),
    )
}

/// The state and the command after the sandbox ran the code and printed
/// `stdout`.
pub open spec fn after_execution(
    docs: Seq<crate::vault::DocumentView>,
    run: AgentRunView,
    stdout: Seq<char>,
) -> (AgentRunView, AgentCommandView) {
    carried_on(
        docs,
        run.instruction,
        run.reasoning,
        run.actions,
        run.next + 1,
        run.artifacts.push(output_artifact(stdout)),
    )
}

/// What a search that found nothing leaves behind.
pub open spec fn no_results() -> ArtifactView {
    ArtifactView { content: "找到 "@ + decimal(0) + " 个相关结果:\n\n"@, mime_type: "text/markdown"@ }
}

/// An instruction that holds a word asking for a search has its keywords
/// searched for, whatever the backend answers; and where the store holds
/// nothing that matches them, the task ends well with that one search and
/// one artifact that tells of no result. This is so where the instruction
/// has a keyword, and where no code is to be run.
pub proof fn lemma_search_without_results(
    docs: Seq<crate::vault::DocumentView>,
    run: AgentRunView,
    reasoning: Seq<char>,
)
    requires
        mentions_any(run.instruction, search_words()),
        keywords(run.instruction).len() > 0,
        terms(keywords(run.instruction)).len() <= MAX_TEXT_TERMS,
        !wants_code(reasoning, run.instruction) || code_block(reasoning) is None,
        search_results(docs, keywords(run.instruction), SEARCH_LIMIT as int).len() == 0,
    ensures
        after_inference(docs, run, reasoning) == (
            closed_run(),
            AgentCommandView::Respond(
                AgentResponseView {
                    reasoning,
                    actions: seq![AgentActionView::SearchQuery { query: keywords(run.instruction) }],
                    artifacts: seq![no_results()],
                },
            ),
        ),
{
    let query = keywords(run.instruction);
    let actions = parsed_actions(reasoning, run.instruction);
    let found = search_results(docs, query, SEARCH_LIMIT as int);
    assert(actions =~= seq![AgentActionView::SearchQuery { query }]);
    assert(search_artifact(found).content =~= no_results().content);
    let after = Seq::<ArtifactView>::empty().push(search_artifact(found));
    assert(after =~= seq![no_results()]);
    assert(drained(docs, actions, 1, after) == (1int, after, None::<StoreError>));
    assert(drained(docs, actions, 0, Seq::empty()) == (1int, after, None::<StoreError>));
}

/// An instruction in which the word for a search stands asks for a search.
pub proof fn lemma_instruction_asks_for_search(instruction: Seq<char>)
    requires
        contains(instruction, "搜索"@) || contains(instruction, "查找"@) || contains(
            instruction,
            "search"@,
        ),
    ensures
        mentions_any(instruction, search_words()),
{
    assert(search_words()[0] == "搜索"@);
    assert(search_words()[1] == "查找"@);
    assert(search_words()[2] == "search"@);
}

/// The state and the command after `event` came to a run.
pub open spec fn resumed(
    docs: Seq<crate::vault::DocumentView>,
    run: AgentRunView,
    event: AgentEvent,
) -> (AgentRunView, AgentCommandView) {
    match event {
        AgentEvent::Inferred(response) => if run.phase == Phase::AwaitingInference {
            after_inference(docs, run, response.text())
        } else {
            (closed_run(), AgentCommandView::Fail(AgentErrorView::OutOfTurn))
        },
        AgentEvent::InferenceFailed(error) => if run.phase == Phase::AwaitingInference {
            (closed_run(), AgentCommandView::Fail(AgentErrorView::Backend(error@)))
        } else {
            (closed_run(), AgentCommandView::Fail(AgentErrorView::OutOfTurn))
        },
        AgentEvent::Executed(result) => if run.phase == Phase::AwaitingExecution {
            after_execution(docs, run, result.stdout@)
        } else {
            (closed_run(), AgentCommandView::Fail(AgentErrorView::OutOfTurn))
        },
        AgentEvent::ExecutionFailed(error) => if run.phase == Phase::AwaitingExecution {
            (closed_run(), AgentCommandView::Fail(AgentErrorView::Sandbox(error@)))
        } else {
            (closed_run(), AgentCommandView::Fail(AgentErrorView::OutOfTurn))
        },
    }
}

/// Appends the characters of `s` to `out`.
fn push_text(out: &mut Vec<char>, s: &str)
    ensures
        final(out)@ == old(out)@ + s@,
{
    let tail = chars_of(s);
    append(out, &tail);
}

/// The text up to `n` characters; three dots stand for what was cut.
pub fn preview_of(content: &str, n: usize) -> (r: Vec<char>)
    ensures
        r@ == preview(content@, n as int),
{
    let chars = chars_of(content);
    if chars.len() > n {
        let mut r = slice_of(&chars, 0, n);
        push_text(&mut r, "...");
        r
    } else {
        chars
    }
}

/// A similarity as its cosine with two decimals.
pub fn score_text_of(s: &Similarity) -> (r: Vec<char>)
    ensures
        r@ == score_text(s@),
{
    let k: u8 = s.hundredths();
    let mut r: Vec<char> = Vec::new();
    r.push(digit_of(k / 100));
    r.push('.');
    r.push(digit_of(k / 10 % 10));
    r.push(digit_of(k % 10));
    assert(r@ =~= two_decimals(k as int));
    r
}

/// One found document under its number: `open` before the number, then
/// the score, then the text up to `n` characters.
fn numbered(open: &str, number: usize, r: &SearchResult, n: usize) -> (out: Vec<char>)
    ensures
        out@ == open@ + decimal(number as nat) + "] (相似度: "@ + score_text(r@.similarity) + ")\n"@
            + preview(r@.document.content, n as int) + "\n\n"@,
{
    let mut out = chars_of(open);
    append(&mut out, &decimal_of(number));
    push_text(&mut out, "] (相似度: ");
    append(&mut out, &score_text_of(&r.similarity));
    push_text(&mut out, ")\n");
    append(&mut out, &preview_of(r.document.content.as_str(), n));
    push_text(&mut out, "\n\n");
    out
}

/// What a search leaves behind.
pub fn render_results(found: &Vec<SearchResult>) -> (r: Artifact)
    ensures
        r@ == search_artifact(results_of(found@)),
{
    let ghost all = results_of(found@);
    let mut lines: Vec<char> = Vec::new();
    let mut i: usize = 0;
    while i < found.len()
        invariant
            i <= found.len(),
            all == results_of(found@),
            lines@ == result_lines(all, i as int),
        decreases found.len() - i,
    {
        let line = numbered("[", i + 1, &found[i], RESULT_PREVIEW);
        assert(line@ == result_line((i + 1) as nat, all[i as int]));
        append(&mut lines, &line);
        i += 1;
    }
    let mut content = chars_of("找到 ");
    append(&mut content, &decimal_of(found.len()));
    push_text(&mut content, " 个相关结果:\n\n");
    append(&mut content, &lines);
    Artifact { content: string_of(&content), mime_type: "text/markdown".to_owned() }
}

/// Whether one of `words` stands somewhere in `text`.
pub fn mentions_any_of(text: &Vec<char>, words: &Vec<Vec<char>>) -> (r: bool)
    ensures
        r == mentions_any(text@, views_of(words@)),
{
    let mut i: usize = 0;
    while i < words.len()
        invariant
            i <= words.len(),
            forall|j: int| 0 <= j < i ==> !contains(text@, #[trigger] views_of(words@)[j]),
        decreases words.len() - i,
    {
        if contains_chars(text, &words[i]) {
            assert(contains(text@, views_of(words@)[i as int]));
            return true;
        }
        i += 1;
    }
    false
}

fn search_word_list() -> (r: Vec<Vec<char>>)
    ensures
        views_of(r@) == search_words(),
{
    let mut v: Vec<Vec<char>> = Vec::new();
    v.push(chars_of("搜索"));
    v.push(chars_of("查找"));
    v.push(chars_of("search"));
    assert(views_of(v@) =~= search_words());
    v
}

fn code_word_list() -> (r: Vec<Vec<char>>)
    ensures
        views_of(r@) == code_words(),
{
    let mut v: Vec<Vec<char>> = Vec::new();
    v.push(chars_of("code"));
    v.push(chars_of("execute"));
    v.push(chars_of("run"));
    v.push(chars_of("代码"));
    v.push(chars_of("执行"));
    v.push(chars_of("运行"));
    assert(views_of(v@) =~= code_words());
    v
}

fn language_name_list() -> (r: Vec<Vec<char>>)
    ensures
        views_of(r@) == language_names(),
{
    let mut v: Vec<Vec<char>> = Vec::new();
    v.push(chars_of("python"));
    assert(views_of(v@) =~= language_names());
    v
}

fn file_word_list() -> (r: Vec<Vec<char>>)
    ensures
        views_of(r@) == file_words(),
{
    let mut v: Vec<Vec<char>> = Vec::new();
    v.push(chars_of("文件"));
    v.push(chars_of("重命名"));
    v.push(chars_of("移动"));
    assert(views_of(v@) =~= file_words());
    v
}

/// A run that is over.
fn closed() -> (r: AgentRun)
    ensures
        r@ == closed_run(),
{
    let r = AgentRun {
        phase: Phase::Closed,
        instruction: String::new(),
        reasoning: String::new(),
        actions: Vec::new(),
        next: 0,
        artifacts: Vec::new(),
    };
    assert(actions_of(r.actions@) =~= Seq::empty());
    assert(artifacts_of(r.artifacts@) =~= Seq::empty());
    r
}

impl AgentRun {
    #[verifier::type_invariant]
    spec fn inv(&self) -> bool {
        self.phase == Phase::AwaitingExecution ==> self.next < self.actions.len()
    }

    /// What the run is waiting for.
    pub fn phase(&self) -> (p: Phase)
        ensures
            p == self@.phase,
    {
        self.phase
    }
}

/// Carries a task from its instruction to its response. What has to happen
/// outside, the backend's answer and each run of code, is asked for by a
/// command and comes back as an event.
pub struct AgentExecutor {}

impl AgentExecutor {
    /// An executor. It holds nothing: the vault is handed to each call.
    pub fn new() -> (r: Self) {
        AgentExecutor {}
    }

    /// The text that the vault is searched by for a task.
    pub fn context_query_of(&self, task: &AgentTask) -> (r: String)
        ensures
            r@ == context_query(task@),
    {
        match &task.context {
            Some(q) => q.clone(),
            None => extract_keywords(task.instruction.as_str()),
        }
    }

    /// The prompt for a task with the context found for it.
    pub fn build_enhanced_prompt(&self, task: &AgentTask, context: &Vec<SearchResult>) -> (r:
        String)
        ensures
            r@ == prompt_text(task@.instruction, results_of(context@)),
    {
        let ghost all = results_of(context@);
        let mut block: Vec<char> = Vec::new();
        if context.len() > 0 {
            let mut listed: Vec<char> = Vec::new();
            let mut i: usize = 0;
            while i < context.len()
                invariant
                    i <= context.len(),
                    all == results_of(context@),
                    listed@ == excerpts(all, i as int),
                decreases context.len() - i,
            {
                let one = numbered("[文档 ", i + 1, &context[i], PROMPT_PREVIEW);
                assert(one@ == excerpt((i + 1) as nat, all[i as int]));
                append(&mut listed, &one);
                i += 1;
            }
            push_text(&mut block, "相关上下文（来自本地知识库）:\n");
            append(&mut block, &listed);
            assert(block@ =~= "相关上下文（来自本地知识库）:\n"@ + excerpts(all, all.len() as int));
        }
        let mut prompt = chars_of(
            "你是一个本地 AI Agent，名为 Silo。你的任务是帮助用户完成各种任务，同时确保所有操作都在本地完成，保护用户隐私。\n\n",
        );
        push_text(&mut prompt, "用户指令: ");
        push_text(&mut prompt, task.instruction.as_str());
        push_text(&mut prompt, "\n\n");
        append(&mut prompt, &block);
        push_text(
            &mut prompt,
            "请分析任务并给出执行计划。如果需要执行代码、搜索文档或操作文件，请明确说明。",
        );
        string_of(&prompt)
    }

    /// Whether the answer or the instruction speaks of work on files. Such
    /// work is never made an action here: whoever wants it done has to ask
    /// the user first.
    pub fn mentions_file_operation(&self, reasoning: &str, instruction: &str) -> (r: bool)
        ensures
            r == wants_file_operation(reasoning@, instruction@),
    {
        let words = file_word_list();
        let answer = to_lowercase(&chars_of(reasoning));
        let written = chars_of(instruction);
        let asked = to_lowercase(&written);
        mentions_any_of(&answer, &words) || mentions_any_of(&written, &words) || mentions_any_of(
            &asked,
            &words,
        )
    }

    /// The actions that the backend's answer to an instruction calls for.
    pub fn parse_actions(&self, reasoning: &str, instruction: &str) -> (r: Vec<AgentAction>)
        ensures
            actions_of(r@) == parsed_actions(reasoning@, instruction@),
    {
        let answer = to_lowercase(&chars_of(reasoning));
        let written = chars_of(instruction);
        let asked = to_lowercase(&written);
        let mut actions: Vec<AgentAction> = Vec::new();
        let searches = search_word_list();
        if mentions_any_of(&answer, &searches) || mentions_any_of(&written, &searches)
            || mentions_any_of(&asked, &searches) {
            let query = extract_keywords(instruction);
            if !query.as_str().is_empty() {
                actions.push(AgentAction::SearchQuery { query });
            }
        }
        assert(actions_of(actions@) =~= search_actions(reasoning@, instruction@));
        let codes = code_word_list();
        let languages = language_name_list();
        if mentions_any_of(&answer, &codes) || mentions_any_of(&written, &codes)
            || mentions_any_of(&asked, &codes) || mentions_any_of(&written, &languages)
            || mentions_any_of(&asked, &languages) {
            match extract_code_block(reasoning) {
                Some(code) => {
                    actions.push(
                        AgentAction::CodeExecution { code, language: "python".to_owned() },
                    );
                },
                None => {},
            }
        }
        assert(actions_of(actions@) =~= parsed_actions(reasoning@, instruction@));
        actions
    }

    /// Carries out the actions from `next` on, as far as that can be done
    /// inside.
    fn carry_on(
        vault: &VaultDatabase,
        instruction: String,
        reasoning: String,
        actions: Vec<AgentAction>,
        from: usize,
        done: Vec<Artifact>,
    ) -> (r: (AgentRun, AgentCommand))
        requires
            from <= actions.len(),
        ensures
            (r.0@, r.1@) == carried_on(
                vault@,
                instruction@,
                reasoning@,
                actions_of(actions@),
                from as int,
                artifacts_of(done@),
            ),
    {
        let ghost acts = actions_of(actions@);
        let ghost start = artifacts_of(done@);
        let mut next: usize = from;
        let mut artifacts: Vec<Artifact> = done;
        while next < actions.len()
            invariant
                next <= actions.len(),
                acts == actions_of(actions@),
                start == artifacts_of(done@),
                drained(vault@, acts, from as int, start) == drained(
                    vault@,
                    acts,
                    next as int,
                    artifacts_of(artifacts@),
                ),
            decreases actions.len() - next,
        {
            let ghost before = artifacts_of(artifacts@);
            assert(acts[next as int] == actions[next as int]@);
            match &actions[next] {
                AgentAction::CodeExecution { code, language } => {
                    let command = AgentCommand::Execute {
                        code: code.clone(),
                        language: language.clone(),
                    };
                    let run = AgentRun {
                        phase: Phase::AwaitingExecution,
                        instruction,
                        reasoning,
                        actions,
                        next,
                        artifacts,
                    };
                    return (run, command);
                },
                AgentAction::FileOperation { .. } => {},
                AgentAction::SearchQuery { query } => {
                    match vault.search(query.as_str(), SEARCH_LIMIT) {
                        Ok(found) => {
                            artifacts.push(render_results(&found));
                            assert(artifacts_of(artifacts@) =~= before.push(
                                search_artifact(
                                    search_results(vault@, query@, SEARCH_LIMIT as int),
                                ),
                            ));
                        },
                        Err(e) => {
                            return (closed(), AgentCommand::Fail(AgentError::Store(e)));
                        },
                    }
                },
            }
            next += 1;
        }
        (closed(), AgentCommand::Respond(AgentResponse { reasoning, actions, artifacts }))
    }

    /// Takes up a task: looks up its context in the vault and asks for the
    /// backend's answer to the prompt built from both. What follows outside
    /// is handed to `resume`, until it responds or fails.
    pub fn execute(&self, task: &AgentTask, vault: &VaultDatabase) -> (r: (
        AgentRun,
        AgentCommand,
    ))
        ensures
            (r.0@, r.1@) == begun(vault@, task@),
    {
        let query = self.context_query_of(task);
        match vault.search(query.as_str(), CONTEXT_LIMIT) {
            Ok(context) => {
                let prompt = self.build_enhanced_prompt(task, &context);
                let run = AgentRun {
                    phase: Phase::AwaitingInference,
                    instruction: task.instruction.clone(),
                    reasoning: String::new(),
                    actions: Vec::new(),
                    next: 0,
                    artifacts: Vec::new(),
                };
                assert(actions_of(run.actions@) =~= Seq::empty());
                assert(artifacts_of(run.artifacts@) =~= Seq::empty());
                (run, AgentCommand::Infer { prompt })
            },
            Err(e) => (closed(), AgentCommand::Fail(AgentError::Store(e))),
        }
    }

    /// Takes up a run with what happened outside. After the backend's
    /// answer the actions are parsed from it; then, and after each run of
    /// code, the actions are carried out in order up to the next run of
    /// code. A failure outside, or an event that the run was not waiting
    /// for, ends the task without a response.
    pub fn resume(&self, run: AgentRun, event: AgentEvent, vault: &VaultDatabase) -> (r: (
        AgentRun,
        AgentCommand,
    ))
        ensures
            (r.0@, r.1@) == resumed(vault@, run@, event),
    {
        proof {
            use_type_invariant(&run);
        }
        match event {
            AgentEvent::Inferred(response) => {
                if run.phase != Phase::AwaitingInference {
                    return (closed(), AgentCommand::Fail(AgentError::OutOfTurn));
                }
                let reasoning = response.full_text();
                let actions = self.parse_actions(reasoning.as_str(), run.instruction.as_str());
                let artifacts: Vec<Artifact> = Vec::new();
                assert(artifacts_of(artifacts@) =~= Seq::empty());
                Self::carry_on(vault, run.instruction, reasoning, actions, 0, artifacts)
            },
            AgentEvent::InferenceFailed(error) => {
                if run.phase != Phase::AwaitingInference {
                    return (closed(), AgentCommand::Fail(AgentError::OutOfTurn));
                }
                (closed(), AgentCommand::Fail(AgentError::Backend(error)))
            },
            AgentEvent::Executed(result) => {
                if run.phase != Phase::AwaitingExecution {
                    return (closed(), AgentCommand::Fail(AgentError::OutOfTurn));
                }
                let ghost before = artifacts_of(run.artifacts@);
                let mut artifacts = run.artifacts;
                artifacts.push(
                    Artifact { content: result.stdout, mime_type: "text/plain".to_owned() },
                );
                assert(artifacts_of(artifacts@) =~= before.push(output_artifact(result.stdout@)));
                Self::carry_on(
                    vault,
                    run.instruction,
                    run.reasoning,
                    run.actions,
                    run.next + 1,
                    artifacts,
                )
            },
            AgentEvent::ExecutionFailed(error) => {
                if run.phase != Phase::AwaitingExecution {
                    return (closed(), AgentCommand::Fail(AgentError::OutOfTurn));
                }
                (closed(), AgentCommand::Fail(AgentError::Sandbox(error)))
            },
        }
    }
}

} // verus!
