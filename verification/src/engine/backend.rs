use crate::engine::{BackendType, InferenceResponse};
use crate::pattern::{contains, contains_chars, split_by, split_on};
use crate::text::{append, chars_of, string_of, strings_of, views_of};
use crate::vault::clone_path;
use crate::words::{split_whitespace, tokens, trim, trim_chars};
use std::path::PathBuf;
use vstd::prelude::*;

verus! {

/// The answer of a backend that only echoes: the prompt between `before`
/// and `after`.
pub open spec fn echo(before: Seq<char>, prompt: Seq<char>, after: Seq<char>) -> Seq<char> {
    before + prompt + after
}

/// Each word with a blank behind it.
pub open spec fn spaced(words: Seq<Seq<char>>) -> Seq<Seq<char>> {
    Seq::new(words.len(), |i: int| words[i].push(' '))
}

/// What a backend streams while it has no model: the words of a note that
/// the prompt is being worked on.
pub open spec fn progress_fragments(prompt: Seq<char>) -> Seq<Seq<char>> {
    spaced(tokens(echo("处理中："@, prompt, "..."@)))
}

/// The answer of the MLX backend while it has no model.
pub open spec fn mlx_reply(prompt: Seq<char>) -> Seq<char> {
    echo(
        "我理解你的指令：\""@,
        prompt,
        "\"。\n\n（注意：当前运行在模拟模式下。MLX 后端尚未完成集成，请后续配置模型文件。）"@,
    )
}

/// The answer of the Inferflow backend while it has no model.
pub open spec fn inferflow_reply(prompt: Seq<char>) -> Seq<char> {
    echo(
        "我理解你的指令：\""@,
        prompt,
        "\"。\n\n（注意：当前运行在模拟模式下。Inferflow 后端尚未完成集成。）"@,
    )
}

/// The mark in a prompt behind which the user's instruction stands.
pub open spec fn instruction_mark() -> Seq<char> {
    "用户指令:"@
}

/// The user's instruction in a prompt: the rest of the line behind the
/// first mark, without white space at its ends; the whole prompt if it
/// holds no mark.
pub open spec fn user_instruction(prompt: Seq<char>) -> Seq<char> {
    let parts = split_on(prompt, instruction_mark());
    if parts.len() > 1 {
        trim(split_on(parts[1], seq!['\n'])[0])
    } else {
        prompt
    }
}

/// How the llama.cpp backend introduces itself.
pub open spec fn greeting() -> Seq<char> {
    "你好！我是 Silo AI，一个隐私优先的本地 Agent 操作系统。我可以帮助你完成各种任务，同时确保你的数据完全保留在本地。"@
}

/// Its answer to a request to list files: a plan with the code to run.
pub open spec fn listing_plan() -> Seq<char> {
    "用户需要列出当前目录下的文件，我将执行以下 Python 代码完成任务：\n\n```python\nimport os\nfor name in os.listdir('.'):\n    print(name)\n```\n"@
}

/// Its answer to a request to scan for PDF files.
pub open spec fn scanning_plan() -> Seq<char> {
    "用户需要扫描目录查找 PDF 文件，我将执行以下 Python 代码：\n\n```python\nimport os\nimport glob\nhome = os.path.expanduser('~')\nfor path in glob.glob(os.path.join(home, 'Downloads', '**', '*.pdf'), recursive=True):\n    print(path)\n```\n"@
}

/// The answer of the llama.cpp backend while it has no model.
pub open spec fn llama_reply(prompt: Seq<char>) -> Seq<char> {
    let asked = user_instruction(prompt);
    if contains(asked, "你好"@) || contains(asked, "hello"@) {
        greeting()
    } else if contains(asked, "介绍"@) || contains(asked, "你是谁"@) {
        greeting()
    } else if contains(asked, "列出"@) && (contains(asked, "目录"@) || contains(asked, "文件"@)) {
        listing_plan()
    } else if contains(asked, "扫描"@) && contains(asked, "PDF"@) {
        scanning_plan()
    } else {
        echo(
            "我理解你的指令：\""@,
            asked,
            "\"。\n\n（注意：当前运行在模拟模式下。要使用真实的 AI 模型，请配置模型文件路径并集成 llama.cpp。）"@,
        )
    }
}

/// What the llama.cpp backend streams while it has no model.
pub open spec fn llama_fragments(prompt: Seq<char>) -> Seq<Seq<char>> {
    if contains(prompt, "你好"@) || contains(prompt, "hello"@) {
        spaced(tokens("你好！我是 Silo AI..."@))
    } else {
        progress_fragments(prompt)
    }
}

/// `before`, then `prompt`, then `after`.
fn echo_of(before: &str, prompt: &Vec<char>, after: &str) -> (r: Vec<char>)
    ensures
        r@ == echo(before@, prompt@, after@),
{
    let mut out = chars_of(before);
    append(&mut out, prompt);
    append(&mut out, &chars_of(after));
    out
}

/// The words of `text` as strings.
fn words_of(text: &Vec<char>) -> (r: Vec<String>)
    ensures
        strings_of(r@) == tokens(text@),
{
    let words = split_whitespace(text);
    let mut out: Vec<String> = Vec::new();
    let mut i: usize = 0;
    while i < words.len()
        invariant
            i <= words.len(),
            strings_of(out@) == views_of(words@).take(i as int),
        decreases words.len() - i,
    {
        let ghost before = strings_of(out@);
        out.push(string_of(&words[i]));
        assert(strings_of(out@) =~= before.push(words[i as int]@));
        i += 1;
    }
    assert(views_of(words@).take(words.len() as int) == views_of(words@));
    out
}

/// Each word of `text` with a blank behind it.
fn fragments_of(text: &Vec<char>) -> (r: Vec<String>)
    ensures
        strings_of(r@) == spaced(tokens(text@)),
{
    let words = split_whitespace(text);
    let mut out: Vec<String> = Vec::new();
    let mut i: usize = 0;
    while i < words.len()
        invariant
            i <= words.len(),
            strings_of(out@) == spaced(views_of(words@)).take(i as int),
        decreases words.len() - i,
    {
        let ghost before = strings_of(out@);
        let mut w = words[i].clone();
        w.push(' ');
        out.push(string_of(&w));
        assert(strings_of(out@) =~= before.push(words[i as int]@.push(' ')));
        i += 1;
    }
    assert(spaced(views_of(words@)).take(words.len() as int) == spaced(views_of(words@)));
    out
}

/// A finished answer.
fn stopped(tokens: Vec<String>) -> (r: InferenceResponse)
    ensures
        r.tokens == tokens,
        r.finish_reason@ == "stop"@,
{
    InferenceResponse { tokens, finish_reason: "stop".to_owned() }
}

/// The backend for Apple Silicon. It has no model yet and answers with a note.
pub struct MlxBackend {}

impl MlxBackend {
    /// The MLX backend.
    pub fn new() -> (r: Self) {
        MlxBackend {}
    }

    /// The answer to `prompt`, cut into words.
    pub fn infer(&self, prompt: &str) -> (r: InferenceResponse)
        ensures
            strings_of(r.tokens@) == tokens(mlx_reply(prompt@)),
            r.finish_reason@ == "stop"@,
    {
        let text = echo_of(
            "我理解你的指令：\"",
            &chars_of(prompt),
            "\"。\n\n（注意：当前运行在模拟模式下。MLX 后端尚未完成集成，请后续配置模型文件。）",
        );
        stopped(words_of(&text))
    }

    /// The pieces that the answer to `prompt` is streamed in.
    pub fn infer_stream(&self, prompt: &str) -> (r: Vec<String>)
        ensures
            strings_of(r@) == progress_fragments(prompt@),
    {
        fragments_of(&echo_of("处理中：", &chars_of(prompt), "..."))
    }

    /// The kind of this backend.
    pub fn backend_type(&self) -> (r: BackendType)
        ensures
            r == BackendType::MlxSidecar,
    {
        BackendType::MlxSidecar
    }

    /// Whether this backend can run on the host: only under macOS.
    pub fn is_available(&self, macos: bool) -> (r: bool)
        ensures
            r == macos,
    {
        macos
    }
}

/// The backend for machines with an NVIDIA GPU. It has no model yet and
/// answers with a note.
pub struct InferflowBackend {}

impl InferflowBackend {
    /// The Inferflow backend.
    pub fn new() -> (r: Self) {
        InferflowBackend {}
    }

    /// The answer to `prompt`, cut into words.
    pub fn infer(&self, prompt: &str) -> (r: InferenceResponse)
        ensures
            strings_of(r.tokens@) == tokens(inferflow_reply(prompt@)),
            r.finish_reason@ == "stop"@,
    {
        let text = echo_of(
            "我理解你的指令：\"",
            &chars_of(prompt),
            "\"。\n\n（注意：当前运行在模拟模式下。Inferflow 后端尚未完成集成。）",
        );
        stopped(words_of(&text))
    }

    /// The pieces that the answer to `prompt` is streamed in.
    pub fn infer_stream(&self, prompt: &str) -> (r: Vec<String>)
        ensures
            strings_of(r@) == progress_fragments(prompt@),
    {
        fragments_of(&echo_of("处理中：", &chars_of(prompt), "..."))
    }

    /// The kind of this backend.
    pub fn backend_type(&self) -> (r: BackendType)
        ensures
            r == BackendType::InferflowCpp,
    {
        BackendType::InferflowCpp
    }

    /// Whether this backend can run on the host: only with an NVIDIA GPU.
    pub fn is_available(&self, nvidia_gpu: bool) -> (r: bool)
        ensures
            r == nvidia_gpu,
    {
        nvidia_gpu
    }
}

/// The backend that runs on any CPU. It has no model yet and answers from
/// a few fixed plans.
pub struct LlamaCppBackend {
    initialized: bool,
    model_path: Option<PathBuf>,
}

impl LlamaCppBackend {
    /// Whether `initialize` was called.
    pub closed spec fn is_initialized(&self) -> bool {
        self.initialized
    }

    /// The path of the model, if one was found.
    pub closed spec fn model(&self) -> Option<PathBuf> {
        self.model_path
    }

    /// The llama.cpp backend, not yet initialized.
    pub fn new() -> (r: Self)
        ensures
            !r.is_initialized(),
            r.model() is None,
    {
        LlamaCppBackend { initialized: false, model_path: None }
    }

    /// Makes the backend ready. The model's path is kept only if a file was
    /// found there.
    pub fn initialize(&mut self, model_path: PathBuf, model_found: bool)
        ensures
            final(self).is_initialized(),
            final(self).model() == if model_found {
                Some(model_path)
            } else {
                old(self).model()
            },
    {
        if model_found {
            self.model_path = Some(model_path);
        }
        self.initialized = true;
    }

    /// Whether `initialize` was called.
    pub fn initialized(&self) -> (r: bool)
        ensures
            r == self.is_initialized(),
    {
        self.initialized
    }

    /// The path of the model, if one was found.
    pub fn model_path(&self) -> (r: Option<PathBuf>)
        ensures
            r == self.model(),
    {
        match &self.model_path {
            Some(p) => Some(clone_path(p)),
            None => None,
        }
    }

    /// The user's instruction in `prompt`.
    pub fn user_instruction_of(prompt: &Vec<char>) -> (r: Vec<char>)
        ensures
            r@ == user_instruction(prompt@),
    {
        let mark = chars_of("用户指令:");
        proof {
            reveal_strlit("用户指令:");
        }
        let parts = split_by(prompt, &mark);
        if parts.len() > 1 {
            let newline: Vec<char> = vec!['\n'];
            assert(newline@ == seq!['\n']);
            let pieces = split_by(&parts[1], &newline);
            assert(split_on(parts[1]@, seq!['\n']).len() > 0);
            assert(views_of(pieces@)[0] == pieces[0]@);
            assert(views_of(parts@)[1] == parts[1]@);
            trim_chars(&pieces[0])
        } else {
            prompt.clone()
        }
    }

    /// The answer to `prompt`, in one piece.
    pub fn infer(&self, prompt: &str) -> (r: InferenceResponse)
        ensures
            strings_of(r.tokens@) == seq![llama_reply(prompt@)],
            r.finish_reason@ == "stop"@,
    {
        let asked = Self::user_instruction_of(&chars_of(prompt));
        let text: Vec<char> = if contains_chars(&asked, &chars_of("你好")) || contains_chars(
            &asked,
            &chars_of("hello"),
        ) {
            chars_of(
                "你好！我是 Silo AI，一个隐私优先的本地 Agent 操作系统。我可以帮助你完成各种任务，同时确保你的数据完全保留在本地。",
            )
        } else if contains_chars(&asked, &chars_of("介绍")) || contains_chars(
            &asked,
            &chars_of("你是谁"),
        ) {
            chars_of(
                "你好！我是 Silo AI，一个隐私优先的本地 Agent 操作系统。我可以帮助你完成各种任务，同时确保你的数据完全保留在本地。",
            )
        } else if contains_chars(&asked, &chars_of("列出")) && (contains_chars(
            &asked,
            &chars_of("目录"),
        ) || contains_chars(&asked, &chars_of("文件"))) {
            chars_of(
                "用户需要列出当前目录下的文件，我将执行以下 Python 代码完成任务：\n\n```python\nimport os\nfor name in os.listdir('.'):\n    print(name)\n```\n",
            )
        } else if contains_chars(&asked, &chars_of("扫描")) && contains_chars(
            &asked,
            &chars_of("PDF"),
        ) {
            chars_of(
                "用户需要扫描目录查找 PDF 文件，我将执行以下 Python 代码：\n\n```python\nimport os\nimport glob\nhome = os.path.expanduser('~')\nfor path in glob.glob(os.path.join(home, 'Downloads', '**', '*.pdf'), recursive=True):\n    print(path)\n```\n",
            )
        } else {
            echo_of(
                "我理解你的指令：\"",
                &asked,
                "\"。\n\n（注意：当前运行在模拟模式下。要使用真实的 AI 模型，请配置模型文件路径并集成 llama.cpp。）",
            )
        };
        let mut tokens: Vec<String> = Vec::new();
        tokens.push(string_of(&text));
        assert(strings_of(tokens@) =~= seq![llama_reply(prompt@)]);
        stopped(tokens)
    }

    /// The pieces that the answer to `prompt` is streamed in.
    pub fn infer_stream(&self, prompt: &str) -> (r: Vec<String>)
        ensures
            strings_of(r@) == llama_fragments(prompt@),
    {
        let chars = chars_of(prompt);
        if contains_chars(&chars, &chars_of("你好")) || contains_chars(&chars, &chars_of("hello")) {
            fragments_of(&chars_of("你好！我是 Silo AI..."))
        } else {
            fragments_of(&echo_of("处理中：", &chars, "..."))
        }
    }

    /// The kind of this backend.
    pub fn backend_type(&self) -> (r: BackendType)
        ensures
            r == BackendType::LlamaCppCpu,
    {
        BackendType::LlamaCppCpu
    }

    /// Whether this backend can run on the host: always.
    pub fn is_available(&self) -> (r: bool)
        ensures
            r,
    {
        true
    }
}

impl Default for LlamaCppBackend {
    fn default() -> (r: Self)
        ensures
            !r.is_initialized(),
            r.model() is None,
    {
        LlamaCppBackend::new()
    }
}

} // verus!
