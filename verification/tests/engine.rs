use silo::engine::manager::select_backend;
use silo::engine::{
    BackendType, EngineManager, HostProfile, InferflowBackend, LlamaCppBackend, MlxBackend,
};
use std::path::PathBuf;

const GREETING: &str = "你好！我是 Silo AI，一个隐私优先的本地 Agent 操作系统。我可以帮助你完成各种任务，同时确保你的数据完全保留在本地。";

fn host(macos: bool, cpu_name: &str, nvidia_gpu: bool) -> HostProfile {
    HostProfile { macos, cpu_name: cpu_name.to_string(), nvidia_gpu }
}

#[test]
fn mlx_echoes_the_prompt_in_words() {
    let backend = MlxBackend::new();
    let response = backend.infer("hi there");
    assert_eq!(
        response.tokens,
        vec![
            "我理解你的指令：\"hi",
            "there\"。",
            "（注意：当前运行在模拟模式下。MLX",
            "后端尚未完成集成，请后续配置模型文件。）"
        ]
    );
    assert_eq!(response.finish_reason, "stop");
    assert_eq!(response.full_text(), response.tokens.join(""));
    assert_eq!(backend.backend_type(), BackendType::MlxSidecar);
    assert!(backend.is_available(true));
    assert!(!backend.is_available(false));
}

#[test]
fn inferflow_echoes_the_prompt_in_words() {
    let backend = InferflowBackend::new();
    let response = backend.infer("go");
    assert_eq!(
        response.tokens,
        vec![
            "我理解你的指令：\"go\"。",
            "（注意：当前运行在模拟模式下。Inferflow",
            "后端尚未完成集成。）"
        ]
    );
    assert_eq!(response.finish_reason, "stop");
    assert_eq!(backend.backend_type(), BackendType::InferflowCpp);
    assert!(backend.is_available(true));
    assert!(!backend.is_available(false));
}

#[test]
fn streams_are_words_with_a_blank_behind_each() {
    assert_eq!(
        MlxBackend::new().infer_stream("hi there"),
        vec!["处理中：hi ", "there... "]
    );
    assert_eq!(InferflowBackend::new().infer_stream(""), vec!["处理中：... "]);
    let llama = LlamaCppBackend::new();
    assert_eq!(llama.infer_stream("say hello"), vec!["你好！我是 ", "Silo ", "AI... "]);
    assert_eq!(llama.infer_stream("compute 1 + 1"), vec!["处理中：compute ", "1 ", "+ ", "1... "]);
}

#[test]
fn llama_greets() {
    let backend = LlamaCppBackend::new();
    for prompt in ["你好", "well hello", "preamble 帮助\n\n用户指令: 你是谁\n\nclosing", "请介绍一下"] {
        let response = backend.infer(prompt);
        assert_eq!(response.tokens, vec![GREETING]);
        assert_eq!(response.finish_reason, "stop");
    }
}

#[test]
fn llama_reads_the_instruction_behind_its_mark() {
    let backend = LlamaCppBackend::new();
    let response = backend.infer("你好 says the preamble\n用户指令:   count to three  \n\nhello");
    assert_eq!(
        response.tokens,
        vec!["我理解你的指令：\"count to three\"。\n\n（注意：当前运行在模拟模式下。要使用真实的 AI 模型，请配置模型文件路径并集成 llama.cpp。）"]
    );
}

#[test]
fn llama_plans_to_list_files() {
    let backend = LlamaCppBackend::new();
    let response = backend.infer("用户指令: 列出当前目录下的文件\n\n");
    assert_eq!(
        response.tokens,
        vec!["用户需要列出当前目录下的文件，我将执行以下 Python 代码完成任务：\n\n```python\nimport os\nfor name in os.listdir('.'):\n    print(name)\n```\n"]
    );
    let only_listing = backend.infer("列出 everything");
    assert_eq!(only_listing.tokens.len(), 1);
    assert!(only_listing.tokens[0].starts_with("我理解你的指令：\"列出 everything\"。"));
}

#[test]
fn llama_plans_to_scan_for_pdf_files() {
    let backend = LlamaCppBackend::new();
    let response = backend.infer("扫描下载目录里的 PDF");
    assert_eq!(
        response.tokens,
        vec!["用户需要扫描目录查找 PDF 文件，我将执行以下 Python 代码：\n\n```python\nimport os\nimport glob\nhome = os.path.expanduser('~')\nfor path in glob.glob(os.path.join(home, 'Downloads', '**', '*.pdf'), recursive=True):\n    print(path)\n```\n"]
    );
    let lower = backend.infer("扫描 pdf");
    assert!(lower.tokens[0].starts_with("我理解你的指令：\"扫描 pdf\"。"));
}

#[test]
fn llama_is_ready_after_it_was_initialized() {
    let mut backend = LlamaCppBackend::new();
    assert!(!backend.initialized());
    assert_eq!(backend.model_path(), None);
    assert!(backend.is_available());
    assert_eq!(backend.backend_type(), BackendType::LlamaCppCpu);
    backend.initialize(PathBuf::from("/missing/model.gguf"), false);
    assert!(backend.initialized());
    assert_eq!(backend.model_path(), None);
    backend.initialize(PathBuf::from("/models/m.gguf"), true);
    assert!(backend.initialized());
    assert_eq!(backend.model_path(), Some(PathBuf::from("/models/m.gguf")));
    let fresh = LlamaCppBackend::default();
    assert!(!fresh.initialized());
}

#[test]
fn the_backend_is_chosen_by_what_the_host_has() {
    assert_eq!(select_backend(&host(true, "Apple M1 Pro", false)), BackendType::MlxSidecar);
    assert_eq!(select_backend(&host(true, "APPLE silicon", true)), BackendType::MlxSidecar);
    assert_eq!(select_backend(&host(true, "Some m3 chip", false)), BackendType::MlxSidecar);
    assert_eq!(select_backend(&host(true, "Intel Core i7", false)), BackendType::LlamaCppCpu);
    assert_eq!(select_backend(&host(true, "Intel Core i7", true)), BackendType::InferflowCpp);
    assert_eq!(select_backend(&host(false, "Apple M1", false)), BackendType::LlamaCppCpu);
    assert_eq!(select_backend(&host(false, "", true)), BackendType::InferflowCpp);
    assert_eq!(select_backend(&host(false, "", false)), BackendType::LlamaCppCpu);
}

#[test]
fn the_manager_starts_with_llama_and_answers_with_the_chosen_backend() {
    let mut engine = EngineManager::new();
    assert_eq!(engine.current_backend_type(), BackendType::LlamaCppCpu);
    assert!(!engine.is_initialized());
    assert_eq!(engine.infer("你好").tokens, vec![GREETING]);
    assert_eq!(engine.infer_stream("a b"), vec!["处理中：a ", "b... "]);
    assert_eq!(
        engine.detect_and_select_backend(&host(true, "Apple M2", false)),
        BackendType::MlxSidecar
    );
    assert_eq!(engine.current_backend_type(), BackendType::MlxSidecar);
    assert!(!engine.is_initialized());
    assert_eq!(engine.infer("你好").tokens.len(), 3);
    engine.initialize(PathBuf::from("/models/m.gguf"), true);
    assert!(engine.is_initialized());
    assert_eq!(engine.current_backend_type(), BackendType::MlxSidecar);
    assert_eq!(
        engine.detect_and_select_backend(&host(false, "x", true)),
        BackendType::InferflowCpp
    );
    assert!(engine.is_initialized());
    assert_eq!(engine.infer("go").tokens.len(), 3);
    assert_eq!(
        engine.detect_and_select_backend(&host(false, "x", false)),
        BackendType::LlamaCppCpu
    );
    assert_eq!(engine.infer("用户指令: hello\n").tokens, vec![GREETING]);
    let default = EngineManager::default();
    assert_eq!(default.current_backend_type(), BackendType::LlamaCppCpu);
}
