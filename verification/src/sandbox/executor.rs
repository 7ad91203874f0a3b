use crate::pattern::{contains, contains_chars};
use crate::sandbox::{
    ExecutionResult, ExecutionResultView, SandboxConfig, SandboxError, SandboxErrorView,
};
use crate::text::{append, chars_of, lowercase, same_chars, string_of, to_lowercase};
use vstd::prelude::*;

verus! {

/// What runs code of a language.
#[derive(Debug, Clone, Copy, PartialEq, Eq, Structural)]
pub enum Interpreter {
    Python,
    JavaScript,
    Other,
}

/// What runs code of the language with this name, in whatever case it is
/// written.
pub open spec fn interpreter_for(language: Seq<char>) -> Interpreter {
    let name = lowercase(language);
    if name == "python"@ {
        Interpreter::Python
    } else if name == "javascript"@ || name == "js"@ {
        Interpreter::JavaScript
    } else {
        Interpreter::Other
    }
}

/// A run that ended well and printed `stdout`.
pub open spec fn printed(stdout: Seq<char>) -> ExecutionResultView {
    ExecutionResultView { stdout, stderr: Seq::empty(), exit_code: 0 }
}

/// What has to happen to run code, or the result where nothing has to.
#[derive(Debug, Clone)]
pub enum SandboxStep {
    /// The code is to be handed to the Python interpreter.
    RunPython { code: String },
    Done(ExecutionResult),
}

/// A step as the contracts see it.
pub enum SandboxStepView {
    RunPython { code: Seq<char> },
    Done(ExecutionResultView),
}

impl View for SandboxStep {
    type V = SandboxStepView;

    open spec fn view(&self) -> SandboxStepView {
        match self {
            SandboxStep::RunPython { code } => SandboxStepView::RunPython { code: code@ },
            SandboxStep::Done(r) => SandboxStepView::Done(r@),
        }
    }
}

/// How a start of the Python interpreter went.
#[derive(Debug, Clone)]
pub enum PythonOutcome {
    /// It ran and ended; `code` is absent if a signal ended it.
    Exited { stdout: String, stderr: String, code: Option<i32> },
    /// No interpreter was found.
    NotFound,
    /// It could not be started for another reason.
    Failed { message: String },
}

/// What is to be done with code of a language: Python is run; for the
/// others a note says that they cannot be run yet.
pub open spec fn prepared(code: Seq<char>, language: Seq<char>) -> SandboxStepView {
    match interpreter_for(language) {
        Interpreter::Python => SandboxStepView::RunPython { code },
        Interpreter::JavaScript => SandboxStepView::Done(
            printed("JavaScript 执行尚需集成，当前为模拟模式"@),
        ),
        Interpreter::Other => SandboxStepView::Done(printed(language + " 执行尚需集成"@)),
    }
}

/// No interpreter was found.
pub open spec fn not_found() -> SandboxErrorView {
    SandboxErrorView::Launch { reason: "未找到 python3，请确保已安装并加入 PATH"@ }
}

/// The interpreter could not be started, for the reason in `message`.
pub open spec fn not_started(message: Seq<char>) -> SandboxErrorView {
    SandboxErrorView::Launch { reason: "执行失败: "@ + message }
}

/// What a start of the Python interpreter comes to. A run that ended gives
/// its output and its exit code, whatever the code is; an interpreter that
/// did not start is an error.
pub open spec fn concluded(outcome: PythonOutcome) -> Result<
    ExecutionResultView,
    SandboxErrorView,
> {
    match outcome {
        PythonOutcome::Exited { stdout, stderr, code } => Ok(
            ExecutionResultView {
                stdout: stdout@,
                stderr: stderr@,
                exit_code: match code {
                    Some(c) => c,
                    None => -1i32,
                },
            },
        ),
        PythonOutcome::NotFound => Err(not_found()),
        PythonOutcome::Failed { message } => Err(not_started(message@)),
    }
}

/// The result that stands for a run where no code is run at all.
pub open spec fn simulated(code: Seq<char>, language: Seq<char>) -> ExecutionResultView {
    match interpreter_for(language) {
        Interpreter::Python => if contains(code, "print"@) {
            printed("模拟执行结果：代码已执行\n"@)
        } else {
            printed(
                "模拟执行："@ + code + "\n（注意：当前为模拟模式，实际执行需要集成 Wasmtime）"@,
            )
        },
        Interpreter::JavaScript => printed("模拟执行 JavaScript 代码\n（注意：当前为模拟模式）"@),
        Interpreter::Other => printed(
            "模拟执行 "@ + language + " 代码\n（注意：当前为模拟模式）"@,
        ),
    }
}

/// A run that ended well and printed `stdout`.
fn printed_result(stdout: &Vec<char>) -> (r: ExecutionResult)
    ensures
        r@ == printed(stdout@),
{
    ExecutionResult { stdout: string_of(stdout), stderr: String::new(), exit_code: 0 }
}

/// Runs code under the limits of its configuration.
pub struct SandboxExecutor {
    config: SandboxConfig,
}

impl SandboxExecutor {
    /// The limits that code is run under.
    pub closed spec fn limits(&self) -> SandboxConfig {
        self.config
    }

    /// A sandbox with these limits.
    pub fn new(config: SandboxConfig) -> (r: Result<Self, SandboxError>)
        ensures
            r is Ok,
            r.unwrap().limits() == config,
    {
        Ok(SandboxExecutor { config })
    }

    /// The limits that code is run under.
    pub fn config(&self) -> (r: &SandboxConfig)
        ensures
            *r == self.limits(),
    {
        &self.config
    }

    /// What runs code of the language with this name.
    pub fn interpreter_of(language: &str) -> (r: Interpreter)
        ensures
            r == interpreter_for(language@),
    {
        let name = to_lowercase(&chars_of(language));
        if same_chars(&name, &chars_of("python")) {
            Interpreter::Python
        } else if same_chars(&name, &chars_of("javascript")) || same_chars(
            &name,
            &chars_of("js"),
        ) {
            Interpreter::JavaScript
        } else {
            Interpreter::Other
        }
    }

    /// Takes up `code` to be run: gives what is to be done outside, whose
    /// outcome `conclude` turns into the result, or the result at once
    /// where nothing is to be done.
    pub fn execute(&self, code: &str, language: &str) -> (r: SandboxStep)
        ensures
            r@ == prepared(code@, language@),
    {
        match Self::interpreter_of(language) {
            Interpreter::Python => SandboxStep::RunPython { code: code.to_owned() },
            Interpreter::JavaScript => SandboxStep::Done(
                printed_result(&chars_of("JavaScript 执行尚需集成，当前为模拟模式")),
            ),
            Interpreter::Other => {
                let mut note = chars_of(language);
                append(&mut note, &chars_of(" 执行尚需集成"));
                SandboxStep::Done(printed_result(&note))
            },
        }
    }

    /// What a start of the Python interpreter comes to. A run that ended
    /// gives its output and its exit code as they are. That no interpreter
    /// was found, or that it could not be started, is an error.
    pub fn conclude(&self, outcome: PythonOutcome) -> (r: Result<ExecutionResult, SandboxError>)
        ensures
            match r {
                Ok(result) => concluded(outcome) == Ok::<ExecutionResultView, SandboxErrorView>(
                    result@,
                ),
                Err(error) => concluded(outcome) == Err::<ExecutionResultView, SandboxErrorView>(
                    error@,
                ),
            },
    {
        match outcome {
            PythonOutcome::Exited { stdout, stderr, code } => Ok(
                ExecutionResult {
                    stdout,
                    stderr,
                    exit_code: match code {
                        Some(c) => c,
                        None => -1,
                    },
                },
            ),
            PythonOutcome::NotFound => Err(
                SandboxError::Launch {
                    reason: "未找到 python3，请确保已安装并加入 PATH".to_owned(),
                },
            ),
            PythonOutcome::Failed { message } => {
                let mut note = chars_of("执行失败: ");
                append(&mut note, &chars_of(message.as_str()));
                Err(SandboxError::Launch { reason: string_of(&note) })
            },
        }
    }

    /// The result that stands for a run of `code` where no code is run.
    pub fn simulate(&self, code: &str, language: &str) -> (r: ExecutionResult)
        ensures
            r@ == simulated(code@, language@),
    {
        match Self::interpreter_of(language) {
            Interpreter::Python => {
                let chars = chars_of(code);
                if contains_chars(&chars, &chars_of("print")) {
                    printed_result(&chars_of("模拟执行结果：代码已执行\n"))
                } else {
                    let mut note = chars_of("模拟执行：");
                    append(&mut note, &chars);
                    append(
                        &mut note,
                        &chars_of("\n（注意：当前为模拟模式，实际执行需要集成 Wasmtime）"),
                    );
                    printed_result(&note)
                }
            },
            Interpreter::JavaScript => printed_result(
                &chars_of("模拟执行 JavaScript 代码\n（注意：当前为模拟模式）"),
            ),
            Interpreter::Other => {
                let mut note = chars_of("模拟执行 ");
                append(&mut note, &chars_of(language));
                append(&mut note, &chars_of(" 代码\n（注意：当前为模拟模式）"));
                printed_result(&note)
            },
        }
    }
}

} // verus!
