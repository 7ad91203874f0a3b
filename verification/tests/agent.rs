use silo::agent::{
    extract_code_block, extract_keywords, extract_search_query, AgentAction, AgentCommand,
    AgentError, AgentEvent, AgentExecutor, AgentTask,
};
use silo::agent::executor::Phase;
use silo::engine::{BackendError, InferenceResponse, LlamaCppBackend};
use silo::sandbox::{ExecutionResult, SandboxError};
use silo::vault::{Document, DocumentMetadata, Timestamp, VaultDatabase};

const PREAMBLE: &str = "你是一个本地 AI Agent，名为 Silo。你的任务是帮助用户完成各种任务，同时确保所有操作都在本地完成，保护用户隐私。\n\n";
const CLOSING: &str = "请分析任务并给出执行计划。如果需要执行代码、搜索文档或操作文件，请明确说明。";
const LISTING_CODE: &str = "import os\nfor name in os.listdir('.'):\n    print(name)";

fn doc(id: &str, content: &str) -> Document {
    Document {
        id: id.to_string(),
        content: content.to_string(),
        metadata: DocumentMetadata {
            file_path: None,
            mime_type: None,
            created_at: Timestamp { secs: 0, nanos: 0 },
            tags: vec![],
        },
    }
}

fn task(instruction: &str) -> AgentTask {
    AgentTask { instruction: instruction.to_string(), context: None }
}

fn answer(text: &str) -> AgentEvent {
    AgentEvent::Inferred(InferenceResponse {
        tokens: vec![text.to_string()],
        finish_reason: "stop".to_string(),
    })
}

fn ran(stdout: &str) -> AgentEvent {
    AgentEvent::Executed(ExecutionResult {
        stdout: stdout.to_string(),
        stderr: String::new(),
        exit_code: 0,
    })
}

#[test]
fn keywords_leave_out_stop_words_and_stop_at_five() {
    assert_eq!(
        extract_keywords("the quick brown fox is a very fast animal indeed"),
        "quick brown fox very fast"
    );
}

#[test]
fn keywords_know_stop_words_in_any_case() {
    assert_eq!(extract_keywords("The Cat WOULD Sleep"), "Cat Sleep");
}

#[test]
fn keywords_leave_out_words_of_one_character() {
    assert_eq!(extract_keywords("我 喜欢 编程 猫 x"), "喜欢 编程");
    assert_eq!(extract_keywords("a I x 猫"), "");
    assert_eq!(extract_keywords("没有 一个 自己 hello"), "hello");
}

#[test]
fn keywords_of_nothing_are_nothing() {
    assert_eq!(extract_keywords(""), "");
    assert_eq!(extract_keywords("  \n\t "), "");
}

#[test]
fn keywords_are_parted_by_single_blanks() {
    assert_eq!(extract_keywords("  alpha \t beta\n\ngamma "), "alpha beta gamma");
}

#[test]
fn the_search_query_of_an_instruction_is_its_keywords() {
    assert_eq!(extract_search_query("列出当前目录下的文件"), "列出当前目录下的文件");
    assert_eq!(
        extract_search_query("find the notes about the vault and the swarm please now"),
        "find notes about vault and"
    );
}

#[test]
fn code_block_is_what_stands_between_the_first_two_fences() {
    let text = "前言\n```python\nimport os\nprint(1)\n```\n后记\n```\nother\n```";
    assert_eq!(
        extract_code_block(text),
        Some("import os\nprint(1)".to_string())
    );
}

#[test]
fn code_block_is_trimmed() {
    assert_eq!(
        extract_code_block("```python\n  x = 1  \n\n```"),
        Some("x = 1".to_string())
    );
}

#[test]
fn code_block_needs_two_fences() {
    assert_eq!(extract_code_block("no code here"), None);
    assert_eq!(extract_code_block("```python\nprint(1)\n"), None);
    assert_eq!(extract_code_block("``"), None);
    assert_eq!(extract_code_block(""), None);
}

#[test]
fn code_block_without_a_second_line_is_empty() {
    assert_eq!(extract_code_block("``````"), Some(String::new()));
    assert_eq!(extract_code_block("```js```"), Some(String::new()));
    assert_eq!(extract_code_block("```python\n```"), Some(String::new()));
}

#[test]
fn code_block_loses_carriage_returns_at_line_ends() {
    assert_eq!(
        extract_code_block("```py\r\na\r\nb\r\n```"),
        Some("a\nb".to_string())
    );
}

#[test]
fn prompt_without_context() {
    let agent = AgentExecutor::new();
    let prompt = agent.build_enhanced_prompt(&task("做点什么"), &vec![]);
    assert_eq!(prompt, format!("{}用户指令: 做点什么\n\n{}", PREAMBLE, CLOSING));
}

#[test]
fn prompt_with_context_numbers_the_excerpts() {
    let mut vault = VaultDatabase::new();
    vault.add_document(doc("a", "Silo is a privacy-first local agent.")).unwrap();
    vault.add_document(doc("b", "privacy agent")).unwrap();
    let context = vault.search("privacy agent", 5).unwrap();
    let agent = AgentExecutor::new();
    let prompt = agent.build_enhanced_prompt(&task("what is Silo"), &context);
    let expected = format!(
        "{}用户指令: what is Silo\n\n相关上下文（来自本地知识库）:\n[文档 1] (相似度: 1.00)\nprivacy agent\n\n[文档 2] (相似度: 0.29)\nSilo is a privacy-first local agent.\n\n{}",
        PREAMBLE, CLOSING
    );
    assert_eq!(prompt, expected);
}

#[test]
fn prompt_cuts_excerpts_at_two_hundred_characters() {
    let mut vault = VaultDatabase::new();
    let long: String = std::iter::repeat('长').take(201).collect();
    let exact: String = std::iter::repeat('x').take(200).collect();
    vault.add_document(doc("long", &long)).unwrap();
    vault.add_document(doc("exact", &exact)).unwrap();
    let context = vault.search(&format!("{} {}", long, exact), 5).unwrap();
    assert_eq!(context.len(), 2);
    let agent = AgentExecutor::new();
    let prompt = agent.build_enhanced_prompt(&task("t"), &context);
    let cut: String = std::iter::repeat('长').take(200).collect();
    let expected = format!(
        "{}用户指令: t\n\n相关上下文（来自本地知识库）:\n[文档 1] (相似度: 0.71)\n{}...\n\n[文档 2] (相似度: 0.71)\n{}\n\n{}",
        PREAMBLE, cut, exact, CLOSING
    );
    assert_eq!(prompt, expected);
}

#[test]
fn the_context_query_is_the_given_one_or_the_keywords() {
    let agent = AgentExecutor::new();
    let given = AgentTask {
        instruction: "tell me about the vault".to_string(),
        context: Some("exactly this".to_string()),
    };
    assert_eq!(agent.context_query_of(&given), "exactly this");
    assert_eq!(agent.context_query_of(&task("tell me about the vault")), "tell me about vault");
}

#[test]
fn parse_finds_a_search() {
    let agent = AgentExecutor::new();
    let actions = agent.parse_actions("我将查找相关文档", "请 搜索 关于 隐私 的 文档");
    assert_eq!(actions.len(), 1);
    match &actions[0] {
        AgentAction::SearchQuery { query } => assert_eq!(query, "搜索 关于 隐私 文档"),
        other => panic!("{:?}", other),
    }
}

#[test]
fn parse_finds_a_search_asked_for_in_the_instruction_alone() {
    let agent = AgentExecutor::new();
    let actions = agent.parse_actions("好的", "搜索 量子 计算");
    assert_eq!(actions.len(), 1);
    assert!(matches!(&actions[0], AgentAction::SearchQuery { query } if query == "搜索 量子 计算"));
    let actions = agent.parse_actions("OK", "SEARCH my notes");
    assert!(matches!(&actions[0], AgentAction::SearchQuery { query } if query == "SEARCH my notes"));
}

#[test]
fn parse_finds_no_search_without_keywords() {
    let agent = AgentExecutor::new();
    assert!(agent.parse_actions("let me search", "a I").is_empty());
}

#[test]
fn parse_finds_code_to_run() {
    let agent = AgentExecutor::new();
    let actions = agent.parse_actions("I will Run this:\n```python\nprint(1)\n```", "do it");
    assert_eq!(actions.len(), 1);
    match &actions[0] {
        AgentAction::CodeExecution { code, language } => {
            assert_eq!(code, "print(1)");
            assert_eq!(language, "python");
        }
        other => panic!("{:?}", other),
    }
}

#[test]
fn parse_finds_code_when_the_instruction_names_the_language() {
    let agent = AgentExecutor::new();
    let actions = agent.parse_actions("```\nx = 2\n```", "write some Python");
    assert_eq!(actions.len(), 1);
    assert!(matches!(&actions[0], AgentAction::CodeExecution { code, .. } if code == "x = 2"));
}

#[test]
fn parse_finds_no_code_without_a_block_or_without_a_word_for_it() {
    let agent = AgentExecutor::new();
    assert!(agent.parse_actions("please execute the plan", "go").is_empty());
    assert!(agent.parse_actions("```\nx = 2\n```", "go").is_empty());
}

#[test]
fn parse_puts_the_search_before_the_code() {
    let agent = AgentExecutor::new();
    let actions = agent.parse_actions("Search, then run:\n```python\nprint(1)\n```", "find stuff");
    assert_eq!(actions.len(), 2);
    assert!(matches!(&actions[0], AgentAction::SearchQuery { query } if query == "find stuff"));
    assert!(matches!(&actions[1], AgentAction::CodeExecution { code, .. } if code == "print(1)"));
}

#[test]
fn parse_never_gives_work_on_files() {
    let agent = AgentExecutor::new();
    assert!(agent.mentions_file_operation("需要重命名", "go"));
    assert!(agent.mentions_file_operation("ok", "整理 文件"));
    assert!(!agent.mentions_file_operation("ok", "go"));
    let actions = agent.parse_actions("我将移动并重命名这些文件", "整理 文件");
    assert!(actions.is_empty());
}

#[test]
fn a_task_to_list_files_runs_the_code_of_the_answer() {
    let vault = VaultDatabase::new();
    let agent = AgentExecutor::new();
    let (run, command) = agent.execute(&task("列出当前目录下的文件"), &vault);
    assert_eq!(run.phase(), Phase::AwaitingInference);
    let prompt = match command {
        AgentCommand::Infer { prompt } => prompt,
        other => panic!("{:?}", other),
    };
    assert_eq!(prompt, format!("{}用户指令: 列出当前目录下的文件\n\n{}", PREAMBLE, CLOSING));
    let response = LlamaCppBackend::new().infer(&prompt);
    let reasoning = response.tokens.join("");
    assert!(reasoning.contains("```python"));
    let (run, command) = agent.resume(run, AgentEvent::Inferred(response), &vault);
    assert_eq!(run.phase(), Phase::AwaitingExecution);
    match command {
        AgentCommand::Execute { code, language } => {
            assert_eq!(code, LISTING_CODE);
            assert_eq!(language, "python");
        }
        other => panic!("{:?}", other),
    }
    let (run, command) = agent.resume(run, ran("a.txt\nb.txt\n"), &vault);
    assert_eq!(run.phase(), Phase::Closed);
    let response = match command {
        AgentCommand::Respond(response) => response,
        other => panic!("{:?}", other),
    };
    assert_eq!(response.reasoning, reasoning);
    assert_eq!(response.actions.len(), 1);
    assert!(matches!(
        &response.actions[0],
        AgentAction::CodeExecution { code, language } if code == LISTING_CODE && language == "python"
    ));
    assert_eq!(response.artifacts.len(), 1);
    assert_eq!(response.artifacts[0].content, "a.txt\nb.txt\n");
    assert_eq!(response.artifacts[0].mime_type, "text/plain");
}

#[test]
fn a_search_that_finds_nothing_reports_zero_results() {
    let vault = VaultDatabase::new();
    let agent = AgentExecutor::new();
    let (run, command) = agent.execute(&task("搜索 量子 计算"), &vault);
    assert!(matches!(command, AgentCommand::Infer { .. }));
    let (run, command) = agent.resume(run, answer("我不确定。"), &vault);
    assert_eq!(run.phase(), Phase::Closed);
    let response = match command {
        AgentCommand::Respond(response) => response,
        other => panic!("{:?}", other),
    };
    assert_eq!(response.reasoning, "我不确定。");
    assert_eq!(response.actions.len(), 1);
    assert!(matches!(
        &response.actions[0],
        AgentAction::SearchQuery { query } if query == "搜索 量子 计算"
    ));
    assert_eq!(response.artifacts.len(), 1);
    assert_eq!(response.artifacts[0].content, "找到 0 个相关结果:\n\n");
    assert_eq!(response.artifacts[0].mime_type, "text/markdown");
}

#[test]
fn a_search_lists_what_it_found() {
    let mut vault = VaultDatabase::new();
    let long: String = std::iter::repeat('y').take(151).collect();
    vault.add_document(doc("a", "alpha beta gamma")).unwrap();
    vault.add_document(doc("b", &long)).unwrap();
    for i in 0..12 {
        vault.add_document(doc(&format!("n{}", i), "one two")).unwrap();
    }
    let agent = AgentExecutor::new();
    let (run, _) = agent.execute(&task(&format!("search one {}", long)), &vault);
    let (_, command) = agent.resume(run, answer("ok"), &vault);
    let response = match command {
        AgentCommand::Respond(response) => response,
        other => panic!("{:?}", other),
    };
    let cut: String = std::iter::repeat('y').take(150).collect();
    let mut expected = format!("找到 10 个相关结果:\n\n[1] (相似度: 0.58)\n{}...\n\n", cut);
    for i in 0..9 {
        expected.push_str(&format!("[{}] (相似度: 0.41)\none two\n\n", i + 2));
    }
    assert_eq!(response.artifacts.len(), 1);
    assert_eq!(response.artifacts[0].content, expected);
}

#[test]
fn the_context_of_a_task_goes_into_its_prompt() {
    let mut vault = VaultDatabase::new();
    vault.add_document(doc("a", "Silo is a privacy-first local agent.")).unwrap();
    let agent = AgentExecutor::new();
    let with_context = AgentTask {
        instruction: "describe".to_string(),
        context: Some("privacy agent".to_string()),
    };
    let (_, command) = agent.execute(&with_context, &vault);
    let prompt = match command {
        AgentCommand::Infer { prompt } => prompt,
        other => panic!("{:?}", other),
    };
    let expected = format!(
        "{}用户指令: describe\n\n相关上下文（来自本地知识库）:\n[文档 1] (相似度: 0.29)\nSilo is a privacy-first local agent.\n\n{}",
        PREAMBLE, CLOSING
    );
    assert_eq!(prompt, expected);
}

#[test]
fn a_search_and_a_run_leave_their_artifacts_in_order() {
    let mut vault = VaultDatabase::new();
    vault.add_document(doc("a", "find")).unwrap();
    let agent = AgentExecutor::new();
    let (run, _) = agent.execute(&task("find stuff"), &vault);
    let (run, command) =
        agent.resume(run, answer("Search, then run:\n```python\nprint(1)\n```"), &vault);
    assert!(matches!(&command, AgentCommand::Execute { code, .. } if code == "print(1)"));
    let (_, command) = agent.resume(run, ran("1\n"), &vault);
    let response = match command {
        AgentCommand::Respond(response) => response,
        other => panic!("{:?}", other),
    };
    assert_eq!(response.actions.len(), 2);
    assert_eq!(response.artifacts.len(), 2);
    assert_eq!(
        response.artifacts[0].content,
        "找到 1 个相关结果:\n\n[1] (相似度: 0.71)\nfind\n\n"
    );
    assert_eq!(response.artifacts[0].mime_type, "text/markdown");
    assert_eq!(response.artifacts[1].content, "1\n");
    assert_eq!(response.artifacts[1].mime_type, "text/plain");
}

#[test]
fn an_answer_that_asks_for_nothing_ends_the_task() {
    let vault = VaultDatabase::new();
    let agent = AgentExecutor::new();
    let (run, _) = agent.execute(&task("hello there"), &vault);
    let (run, command) = agent.resume(run, answer("Hi!"), &vault);
    assert_eq!(run.phase(), Phase::Closed);
    match command {
        AgentCommand::Respond(response) => {
            assert_eq!(response.reasoning, "Hi!");
            assert!(response.actions.is_empty());
            assert!(response.artifacts.is_empty());
        }
        other => panic!("{:?}", other),
    }
}

#[test]
fn the_answer_is_its_tokens_one_after_the_other() {
    let vault = VaultDatabase::new();
    let agent = AgentExecutor::new();
    let (run, _) = agent.execute(&task("hello there"), &vault);
    let event = AgentEvent::Inferred(InferenceResponse {
        tokens: vec!["Hel".to_string(), "lo ".to_string(), "you".to_string()],
        finish_reason: "stop".to_string(),
    });
    let (_, command) = agent.resume(run, event, &vault);
    assert!(matches!(command, AgentCommand::Respond(r) if r.reasoning == "Hello you"));
}

#[test]
fn a_backend_that_fails_fails_the_task() {
    let vault = VaultDatabase::new();
    let agent = AgentExecutor::new();
    let (run, _) = agent.execute(&task("hello there"), &vault);
    let down = BackendError::Unavailable { reason: "no model".to_string() };
    let (run, command) = agent.resume(run, AgentEvent::InferenceFailed(down.clone()), &vault);
    assert_eq!(run.phase(), Phase::Closed);
    assert!(matches!(command, AgentCommand::Fail(AgentError::Backend(e)) if e == down));
}

#[test]
fn a_sandbox_that_fails_fails_the_task_without_a_response() {
    let vault = VaultDatabase::new();
    let agent = AgentExecutor::new();
    let (run, _) = agent.execute(&task("run it"), &vault);
    let (run, command) = agent.resume(run, answer("```\nprint(1)\n```"), &vault);
    assert!(matches!(command, AgentCommand::Execute { .. }));
    let failed = SandboxError::Launch { reason: "no interpreter".to_string() };
    let (run, command) =
        agent.resume(run, AgentEvent::ExecutionFailed(failed.clone()), &vault);
    assert_eq!(run.phase(), Phase::Closed);
    assert!(matches!(command, AgentCommand::Fail(AgentError::Sandbox(e)) if e == failed));
}

#[test]
fn an_event_out_of_turn_fails_the_task() {
    let vault = VaultDatabase::new();
    let agent = AgentExecutor::new();
    let (run, _) = agent.execute(&task("hello there"), &vault);
    let (run, command) = agent.resume(run, ran("x"), &vault);
    assert!(matches!(command, AgentCommand::Fail(AgentError::OutOfTurn)));
    let (_, command) = agent.resume(run, answer("Hi!"), &vault);
    assert!(matches!(command, AgentCommand::Fail(AgentError::OutOfTurn)));
    let (run, _) = agent.execute(&task("hello there"), &vault);
    let (_, command) =
        agent.resume(run, AgentEvent::ExecutionFailed(SandboxError::Timeout), &vault);
    assert!(matches!(command, AgentCommand::Fail(AgentError::OutOfTurn)));
    let (run, _) = agent.execute(&task("run it"), &vault);
    let (run, _) = agent.resume(run, answer("```\nprint(1)\n```"), &vault);
    let (_, command) =
        agent.resume(run, AgentEvent::InferenceFailed(BackendError::Timeout), &vault);
    assert!(matches!(command, AgentCommand::Fail(AgentError::OutOfTurn)));
}

#[test]
fn a_search_asked_for_in_the_instruction_reports_zero_results_whatever_is_stored() {
    let mut vault = VaultDatabase::new();
    vault.add_document(doc("a", "完全 无关 的 内容")).unwrap();
    let agent = AgentExecutor::new();
    let (run, _) = agent.execute(&task("搜索 量子计算"), &vault);
    let (_, command) = agent.resume(run, answer("我来搜索知识库"), &vault);
    let response = match command {
        AgentCommand::Respond(response) => response,
        other => panic!("{:?}", other),
    };
    assert_eq!(response.actions.len(), 1);
    assert!(matches!(
        &response.actions[0],
        AgentAction::SearchQuery { query } if query == "搜索 量子计算"
    ));
    assert_eq!(response.artifacts.len(), 1);
    assert_eq!(response.artifacts[0].mime_type, "text/markdown");
    assert_eq!(response.artifacts[0].content, "找到 0 个相关结果:\n\n");
}
